//! Content classifier: five scalar metrics measured over an image and a
//! fixed, order-sensitive decision table that maps them to a content
//! category. All metrics are exact rationals.

use vstd::prelude::*;
use vstd::set_lib::lemma_len_subset;
use crate::image::{GridV, Image, Pixel};
use crate::content_type::ContentType;
use crate::medium::px_abs_diff;

verus! {

/// An exact rational in `[0, 1]`: a metric value `num / den`.
#[derive(Debug, Clone, Copy, PartialEq, Eq, Structural)]
pub struct Ratio {
    pub num: u64,
    pub den: u64,
}

impl Ratio {
    /// The denominator is positive and small enough for exact 64-bit
    /// comparisons, and the value is at most one.
    pub open spec fn wf(self) -> bool {
        &&& 1 <= self.den <= 0x1_0000_0000_0000
        &&& self.num <= self.den
    }

    /// Whether the metric exceeds `n / d`, compared exactly.
    pub fn exceeds(&self, n: u32, d: u32) -> (r: bool)
        requires
            self.wf(),
            1 <= d <= 1000,
            n <= 1000,
        ensures
            r == self.exceeds_spec(n as int, d as int),
    {
        proof {
            crate::arith::lemma_mul_bound(self.num as int, 0x1_0000_0000_0000, d as int, 1000);
            crate::arith::lemma_mul_bound(n as int, 1000, self.den as int, 0x1_0000_0000_0000);
        }
        self.num * (d as u64) > (n as u64) * self.den
    }

    /// The metric exceeds `n / d`.
    pub open spec fn exceeds_spec(self, n: int, d: int) -> bool {
        self.num * d > n * self.den
    }

    /// Whether the metric is below `n / d`, compared exactly.
    pub fn below(&self, n: u32, d: u32) -> (r: bool)
        requires
            self.wf(),
            1 <= d <= 1000,
            n <= 1000,
        ensures
            r == self.below_spec(n as int, d as int),
    {
        proof {
            crate::arith::lemma_mul_bound(self.num as int, 0x1_0000_0000_0000, d as int, 1000);
            crate::arith::lemma_mul_bound(n as int, 1000, self.den as int, 0x1_0000_0000_0000);
        }
        self.num * (d as u64) < (n as u64) * self.den
    }

    /// The metric is below `n / d`.
    pub open spec fn below_spec(self, n: int, d: int) -> bool {
        self.num * d < n * self.den
    }
}

/// Number of cells of row `y`, columns `[xs, xe)`, satisfying `f`.
pub open spec fn row_count(y: int, xs: int, xe: int, f: spec_fn(int, int) -> bool) -> int
    decreases xe - xs,
{
    if xe <= xs {
        0
    } else {
        row_count(y, xs, xe - 1, f) + if f(xe - 1, y) {
            1int
        } else {
            0int
        }
    }
}

/// Number of cells of the rectangle `[xs, xe) x [ys, ye)` satisfying `f`.
pub open spec fn rect_count(ys: int, ye: int, xs: int, xe: int, f: spec_fn(int, int) -> bool) -> int
    decreases ye - ys,
{
    if ye <= ys {
        0
    } else {
        rect_count(ys, ye - 1, xs, xe, f) + row_count(ye - 1, xs, xe, f)
    }
}

/// A row count lies between zero and the row width.
pub proof fn lemma_row_count_bounds(y: int, xs: int, xe: int, f: spec_fn(int, int) -> bool)
    ensures
        0 <= row_count(y, xs, xe, f) <= (if xe >= xs {
            xe - xs
        } else {
            0
        }),
    decreases xe - xs,
{
    if xe > xs {
        lemma_row_count_bounds(y, xs, xe - 1, f);
    }
}

/// A rectangle count lies between zero and the cell count.
pub proof fn lemma_rect_count_bounds(
    ys: int,
    ye: int,
    xs: int,
    xe: int,
    f: spec_fn(int, int) -> bool,
)
    ensures
        0 <= rect_count(ys, ye, xs, xe, f) <= (if ye >= ys {
            ye - ys
        } else {
            0
        }) * (if xe >= xs {
            xe - xs
        } else {
            0
        }),
    decreases ye - ys,
{
    let h = if ye >= ys {
        ye - ys
    } else {
        0
    };
    let w = if xe >= xs {
        xe - xs
    } else {
        0
    };
    if ye > ys {
        lemma_rect_count_bounds(ys, ye - 1, xs, xe, f);
        lemma_row_count_bounds(ye - 1, xs, xe, f);
        assert((h - 1) * w + w == h * w) by (nonlinear_arith);
    } else {
        assert(h * w == 0) by (nonlinear_arith)
            requires
                h == 0,
        ;
    }
}

/// Whether the pixel at `(x, y)` sits on a detected horizontal or vertical
/// edge: a per-channel-sum difference above 10 (so above 30 before the
/// division by three) toward the right or bottom neighbor.
pub open spec fn edge_at(g: GridV, x: int, y: int) -> bool {
    px_abs_diff(g.at(x, y), g.at(x + 1, y)) > 30 || px_abs_diff(g.at(x, y), g.at(x, y + 1)) > 30
}

/// Whether the edge at `(x, y)` is sharp: a difference above 50 (150 before
/// the division by three).
pub open spec fn sharp_at(g: GridV, x: int, y: int) -> bool {
    px_abs_diff(g.at(x, y), g.at(x + 1, y)) > 150 || px_abs_diff(g.at(x, y), g.at(x, y + 1)) > 150
}

/// The edge predicate of a grid, as a cell predicate.
pub open spec fn edge_pred(g: GridV) -> spec_fn(int, int) -> bool {
    |x: int, y: int| edge_at(g, x, y)
}

/// The sharp-edge predicate of a grid, as a cell predicate.
pub open spec fn sharp_pred(g: GridV) -> spec_fn(int, int) -> bool {
    |x: int, y: int| sharp_at(g, x, y)
}

/// The fraction of detected interior edges that are sharp, or zero when no
/// edge is detected.
pub open spec fn edge_sharpness_of(g: GridV) -> Ratio {
    let total = rect_count(1, g.h - 1, 1, g.w - 1, edge_pred(g));
    let sharp = rect_count(1, g.h - 1, 1, g.w - 1, sharp_pred(g));
    if total == 0 {
        Ratio { num: 0u64, den: 1u64 }
    } else {
        Ratio { num: sharp as u64, den: total as u64 }
    }
}

/// Fraction of interior edges that are sharp (0 = smooth, 1 = sharp), by
/// per-channel-sum differences toward the right and bottom neighbors.
pub fn calculate_edge_sharpness(image: &Image) -> (r: Ratio)
    requires
        image.wf(),
        image@.w >= 1,
        image@.h >= 1,
        image@.w * image@.h <= 0x1_0000_0000,
    ensures
        r == edge_sharpness_of(image@),
        r.wf(),
{
    let ghost g = image@;
    let w = image.width;
    let h = image.height;
    let mut sharp: u64 = 0;
    let mut total: u64 = 0;
    let mut y: usize = 1;
    while y + 1 < h
        invariant
            image.wf(),
            g == image@,
            w == g.w,
            h == g.h,
            1 <= w,
            1 <= h,
            g.w * g.h <= 0x1_0000_0000,
            1 <= y,
            h >= 2 ==> y <= h - 1,
            h < 2 ==> y == 1,
            total == rect_count(1, y as int, 1, w - 1, edge_pred(g)),
            sharp == rect_count(1, y as int, 1, w - 1, sharp_pred(g)),
            sharp <= total <= 0x1_0000_0000,
        decreases h - y,
    {
        let mut x: usize = 1;
        while x + 1 < w
            invariant
                image.wf(),
                g == image@,
                w == g.w,
                h == g.h,
                1 <= w,
                1 <= h,
                g.w * g.h <= 0x1_0000_0000,
                1 <= y,
                y + 1 < h,
                1 <= x,
                w >= 2 ==> x <= w - 1,
                w < 2 ==> x == 1,
                total == rect_count(1, y as int, 1, w - 1, edge_pred(g)) + row_count(
                    y as int,
                    1,
                    x as int,
                    edge_pred(g),
                ),
                sharp == rect_count(1, y as int, 1, w - 1, sharp_pred(g)) + row_count(
                    y as int,
                    1,
                    x as int,
                    sharp_pred(g),
                ),
                sharp <= total <= 0x1_0000_0000,
            decreases w - x,
        {
            proof {
                lemma_rect_count_bounds(1, y as int, 1, w - 1, edge_pred(g));
                lemma_row_count_bounds(y as int, 1, x as int, edge_pred(g));
                assert((y - 1) * (w - 2) + (x - 1) + 1 <= g.w * g.h) by (nonlinear_arith)
                    requires
                        1 <= y,
                        (y as int) + 1 < (h as int),
                        1 <= x,
                        (x as int) + 1 < (w as int),
                        g.w == w as int,
                        g.h == h as int,
                ;
            }
            let center = image.get_pixel(x, y).unwrap();
            let right = image.get_pixel(x + 1, y).unwrap();
            let bottom = image.get_pixel(x, y + 1).unwrap();
            let dh = crate::medium::px_abs_diff_exec(center, right);
            let dv = crate::medium::px_abs_diff_exec(center, bottom);
            if dh > 30 || dv > 30 {
                total = total + 1;
                if dh > 150 || dv > 150 {
                    sharp = sharp + 1;
                }
            }
            proof {
                assert(edge_pred(g)(x as int, y as int) == edge_at(g, x as int, y as int));
                assert(sharp_pred(g)(x as int, y as int) == sharp_at(g, x as int, y as int));
                assert(row_count(y as int, 1, x + 1, edge_pred(g)) == row_count(
                    y as int,
                    1,
                    x as int,
                    edge_pred(g),
                ) + if edge_at(g, x as int, y as int) {
                    1int
                } else {
                    0int
                });
                assert(row_count(y as int, 1, x + 1, sharp_pred(g)) == row_count(
                    y as int,
                    1,
                    x as int,
                    sharp_pred(g),
                ) + if sharp_at(g, x as int, y as int) {
                    1int
                } else {
                    0int
                });
            }
            x = x + 1;
        }
        proof {
            if w >= 2 {
                assert(x as int == w - 1);
            } else {
                assert(row_count(y as int, 1, x as int, edge_pred(g)) == 0);
                assert(row_count(y as int, 1, w - 1, edge_pred(g)) == 0);
                assert(row_count(y as int, 1, x as int, sharp_pred(g)) == 0);
                assert(row_count(y as int, 1, w - 1, sharp_pred(g)) == 0);
            }
            assert(rect_count(1, y + 1, 1, w - 1, edge_pred(g)) == rect_count(
                1,
                y as int,
                1,
                w - 1,
                edge_pred(g),
            ) + row_count(y as int, 1, w - 1, edge_pred(g)));
            assert(rect_count(1, y + 1, 1, w - 1, sharp_pred(g)) == rect_count(
                1,
                y as int,
                1,
                w - 1,
                sharp_pred(g),
            ) + row_count(y as int, 1, w - 1, sharp_pred(g)));
        }
        y = y + 1;
    }
    proof {
        if h >= 2 {
            assert(y as int == h - 1);
        } else {
            assert(rect_count(1, g.h - 1, 1, g.w - 1, edge_pred(g)) == 0);
            assert(rect_count(1, g.h - 1, 1, g.w - 1, sharp_pred(g)) == 0);
        }
    }
    if total == 0 {
        Ratio { num: 0, den: 1 }
    } else {
        Ratio { num: sharp, den: total }
    }
}

/// The cell predicate that holds everywhere (for plain cell counting).
pub open spec fn all_pred() -> spec_fn(int, int) -> bool {
    |x: int, y: int| true
}

/// Whether the row triple starting at `(x, y)` has a smooth gradient: its
/// two successive per-channel-sum differences agree within 10 (30 before the
/// division by three).
pub open spec fn smooth_at(g: GridV, x: int, y: int) -> bool {
    let d1 = px_abs_diff(g.at(x, y), g.at(x + 1, y));
    let d2 = px_abs_diff(g.at(x + 1, y), g.at(x + 2, y));
    d1 - d2 < 30 && d2 - d1 < 30
}

/// The smooth-triple predicate of a grid, as a cell predicate.
pub open spec fn smooth_pred(g: GridV) -> spec_fn(int, int) -> bool {
    |x: int, y: int| smooth_at(g, x, y)
}

/// The fraction of interior row triples whose two successive differences
/// agree within 10.
pub open spec fn gradient_smoothness_of(g: GridV) -> Ratio {
    let total = rect_count(2, g.h - 2, 2, g.w - 2, all_pred());
    let smooth = rect_count(2, g.h - 2, 2, g.w - 2, smooth_pred(g));
    if total == 0 {
        Ratio { num: 0u64, den: 1u64 }
    } else {
        Ratio { num: smooth as u64, den: total as u64 }
    }
}

/// Fraction of consecutive-pixel triples along a row whose two successive
/// differences agree within 10 (0 = noisy, 1 = smooth).
pub fn calculate_gradient_smoothness(image: &Image) -> (r: Ratio)
    requires
        image.wf(),
        image@.w >= 1,
        image@.h >= 1,
        image@.w * image@.h <= 0x1_0000_0000,
    ensures
        r == gradient_smoothness_of(image@),
        r.wf(),
{
    let ghost g = image@;
    let w = image.width;
    let h = image.height;
    let mut smooth: u64 = 0;
    let mut total: u64 = 0;
    let mut y: usize = 2;
    while y + 2 < h
        invariant
            image.wf(),
            g == image@,
            w == g.w,
            h == g.h,
            1 <= w,
            1 <= h,
            g.w * g.h <= 0x1_0000_0000,
            2 <= y,
            h >= 4 ==> y <= h - 2,
            h < 4 ==> y == 2,
            total == rect_count(2, y as int, 2, w - 2, all_pred()),
            smooth == rect_count(2, y as int, 2, w - 2, smooth_pred(g)),
            smooth <= total <= 0x1_0000_0000,
        decreases h - y,
    {
        let mut x: usize = 2;
        while x + 2 < w
            invariant
                image.wf(),
                g == image@,
                w == g.w,
                h == g.h,
                1 <= w,
                1 <= h,
                g.w * g.h <= 0x1_0000_0000,
                2 <= y,
                y + 2 < h,
                2 <= x,
                w >= 4 ==> x <= w - 2,
                w < 4 ==> x == 2,
                total == rect_count(2, y as int, 2, w - 2, all_pred()) + row_count(
                    y as int,
                    2,
                    x as int,
                    all_pred(),
                ),
                smooth == rect_count(2, y as int, 2, w - 2, smooth_pred(g)) + row_count(
                    y as int,
                    2,
                    x as int,
                    smooth_pred(g),
                ),
                smooth <= total <= 0x1_0000_0000,
            decreases w - x,
        {
            proof {
                lemma_rect_count_bounds(2, y as int, 2, w - 2, all_pred());
                lemma_row_count_bounds(y as int, 2, x as int, all_pred());
                assert((y - 2) * (w - 4) + (x - 2) + 1 <= g.w * g.h) by (nonlinear_arith)
                    requires
                        2 <= y,
                        (y as int) + 2 < (h as int),
                        2 <= x,
                        (x as int) + 2 < (w as int),
                        g.w == w as int,
                        g.h == h as int,
                ;
            }
            let p1 = image.get_pixel(x, y).unwrap();
            let p2 = image.get_pixel(x + 1, y).unwrap();
            let p3 = image.get_pixel(x + 2, y).unwrap();
            let d1 = crate::medium::px_abs_diff_exec(p1, p2) as i64;
            let d2 = crate::medium::px_abs_diff_exec(p2, p3) as i64;
            total = total + 1;
            if d1 - d2 < 30 && d2 - d1 < 30 {
                smooth = smooth + 1;
            }
            proof {
                assert(smooth_pred(g)(x as int, y as int) == smooth_at(g, x as int, y as int));
                assert(all_pred()(x as int, y as int));
                assert(row_count(y as int, 2, x + 1, all_pred()) == row_count(
                    y as int,
                    2,
                    x as int,
                    all_pred(),
                ) + 1);
                assert(row_count(y as int, 2, x + 1, smooth_pred(g)) == row_count(
                    y as int,
                    2,
                    x as int,
                    smooth_pred(g),
                ) + if smooth_at(g, x as int, y as int) {
                    1int
                } else {
                    0int
                });
            }
            x = x + 1;
        }
        proof {
            if w >= 4 {
                assert(x as int == w - 2);
            } else {
                assert(row_count(y as int, 2, x as int, all_pred()) == 0);
                assert(row_count(y as int, 2, w - 2, all_pred()) == 0);
                assert(row_count(y as int, 2, x as int, smooth_pred(g)) == 0);
                assert(row_count(y as int, 2, w - 2, smooth_pred(g)) == 0);
            }
            assert(rect_count(2, y + 1, 2, w - 2, all_pred()) == rect_count(
                2,
                y as int,
                2,
                w - 2,
                all_pred(),
            ) + row_count(y as int, 2, w - 2, all_pred()));
            assert(rect_count(2, y + 1, 2, w - 2, smooth_pred(g)) == rect_count(
                2,
                y as int,
                2,
                w - 2,
                smooth_pred(g),
            ) + row_count(y as int, 2, w - 2, smooth_pred(g)));
        }
        y = y + 1;
    }
    proof {
        if h >= 4 {
            assert(y as int == h - 2);
        } else {
            assert(rect_count(2, g.h - 2, 2, g.w - 2, all_pred()) == 0);
            assert(rect_count(2, g.h - 2, 2, g.w - 2, smooth_pred(g)) == 0);
        }
    }
    if total == 0 {
        Ratio { num: 0, den: 1 }
    } else {
        Ratio { num: smooth, den: total }
    }
}

/// The brightness of a pixel: the truncated mean of its channels.
pub open spec fn brightness(p: Pixel) -> int {
    (p.r + p.g + p.b) / 3
}

/// Largest brightness in row `y`, columns `[xs, xe)` (zero when empty).
pub open spec fn row_max_b(g: GridV, y: int, xs: int, xe: int) -> int
    decreases xe - xs,
{
    if xe <= xs {
        0
    } else {
        let m = row_max_b(g, y, xs, xe - 1);
        let b = brightness(g.at(xe - 1, y));
        if b > m {
            b
        } else {
            m
        }
    }
}

/// Largest brightness in the rectangle `[xs, xe) x [ys, ye)` (zero when
/// empty).
pub open spec fn rect_max_b(g: GridV, ys: int, ye: int, xs: int, xe: int) -> int
    decreases ye - ys,
{
    if ye <= ys {
        0
    } else {
        let m = rect_max_b(g, ys, ye - 1, xs, xe);
        let rm = row_max_b(g, ye - 1, xs, xe);
        if rm > m {
            rm
        } else {
            m
        }
    }
}

/// Smallest brightness in row `y`, columns `[xs, xe)` (255 when empty).
pub open spec fn row_min_b(g: GridV, y: int, xs: int, xe: int) -> int
    decreases xe - xs,
{
    if xe <= xs {
        255
    } else {
        let m = row_min_b(g, y, xs, xe - 1);
        let b = brightness(g.at(xe - 1, y));
        if b < m {
            b
        } else {
            m
        }
    }
}

/// Smallest brightness in the rectangle `[xs, xe) x [ys, ye)` (255 when
/// empty).
pub open spec fn rect_min_b(g: GridV, ys: int, ye: int, xs: int, xe: int) -> int
    decreases ye - ys,
{
    if ye <= ys {
        255
    } else {
        let m = rect_min_b(g, ys, ye - 1, xs, xe);
        let rm = row_min_b(g, ye - 1, xs, xe);
        if rm < m {
            rm
        } else {
            m
        }
    }
}

/// Whether the 8x8 block with block coordinates `(bx, by)` has a brightness
/// range above 100 (a text-like high-contrast region).
pub open spec fn text_block_at(g: GridV, bx: int, by: int) -> bool {
    let xs = 8 * bx;
    let xe = if 8 * bx + 8 <= g.w {
        8 * bx + 8
    } else {
        g.w
    };
    let ys = 8 * by;
    let ye = if 8 * by + 8 <= g.h {
        8 * by + 8
    } else {
        g.h
    };
    rect_max_b(g, ys, ye, xs, xe) - rect_min_b(g, ys, ye, xs, xe) > 100
}

/// The high-contrast-block predicate of a grid, as a block predicate.
pub open spec fn text_pred(g: GridV) -> spec_fn(int, int) -> bool {
    |bx: int, by: int| text_block_at(g, bx, by)
}

/// The fraction of 8x8 blocks whose brightness range exceeds 100.
pub open spec fn text_likelihood_of(g: GridV) -> Ratio {
    let nbx = (g.w + 7) / 8;
    let nby = (g.h + 7) / 8;
    let total = rect_count(0, nby, 0, nbx, all_pred());
    let high = rect_count(0, nby, 0, nbx, text_pred(g));
    if total == 0 {
        Ratio { num: 0u64, den: 1u64 }
    } else {
        Ratio { num: high as u64, den: total as u64 }
    }
}

/// The brightness of a pixel, on machine integers.
fn brightness_exec(p: Pixel) -> (b: u32)
    ensures
        b == brightness(p),
        b <= 255,
{
    (p.r as u32 + p.g as u32 + p.b as u32) / 3
}

/// The brightness range (max minus min) of the block
/// `[xs, xe) x [ys, ye)`.
fn block_range(image: &Image, xs: usize, xe: usize, ys: usize, ye: usize) -> (r: (u32, u32))
    requires
        image.wf(),
        xs <= xe <= image@.w,
        ys <= ye <= image@.h,
    ensures
        r.0 == rect_max_b(image@, ys as int, ye as int, xs as int, xe as int),
        r.1 == rect_min_b(image@, ys as int, ye as int, xs as int, xe as int),
        r.0 <= 255,
        r.1 <= 255,
{
    let ghost g = image@;
    let mut mx: u32 = 0;
    let mut mn: u32 = 255;
    let mut yy: usize = ys;
    while yy < ye
        invariant
            image.wf(),
            g == image@,
            xs <= xe <= g.w,
            ys <= yy <= ye <= g.h,
            mx == rect_max_b(g, ys as int, yy as int, xs as int, xe as int),
            mn == rect_min_b(g, ys as int, yy as int, xs as int, xe as int),
            mx <= 255,
            mn <= 255,
        decreases ye - yy,
    {
        let mut xx: usize = xs;
        while xx < xe
            invariant
                image.wf(),
                g == image@,
                xs <= xx <= xe <= g.w,
                ys <= yy < ye <= g.h,
                mx == ({
                    let m = rect_max_b(g, ys as int, yy as int, xs as int, xe as int);
                    let rm = row_max_b(g, yy as int, xs as int, xx as int);
                    if rm > m {
                        rm
                    } else {
                        m
                    }
                }),
                mn == ({
                    let m = rect_min_b(g, ys as int, yy as int, xs as int, xe as int);
                    let rm = row_min_b(g, yy as int, xs as int, xx as int);
                    if rm < m {
                        rm
                    } else {
                        m
                    }
                }),
                mx <= 255,
                mn <= 255,
            decreases xe - xx,
        {
            let p = image.get_pixel(xx, yy).unwrap();
            let b = brightness_exec(p);
            if b > mx {
                mx = b;
            }
            if b < mn {
                mn = b;
            }
            proof {
                assert(row_max_b(g, yy as int, xs as int, xx + 1) == ({
                    let m = row_max_b(g, yy as int, xs as int, xx as int);
                    let bb = brightness(g.at(xx as int, yy as int));
                    if bb > m {
                        bb
                    } else {
                        m
                    }
                }));
                assert(row_min_b(g, yy as int, xs as int, xx + 1) == ({
                    let m = row_min_b(g, yy as int, xs as int, xx as int);
                    let bb = brightness(g.at(xx as int, yy as int));
                    if bb < m {
                        bb
                    } else {
                        m
                    }
                }));
            }
            xx = xx + 1;
        }
        proof {
            assert(rect_max_b(g, ys as int, yy + 1, xs as int, xe as int) == ({
                let m = rect_max_b(g, ys as int, yy as int, xs as int, xe as int);
                let rm = row_max_b(g, yy as int, xs as int, xe as int);
                if rm > m {
                    rm
                } else {
                    m
                }
            }));
            assert(rect_min_b(g, ys as int, yy + 1, xs as int, xe as int) == ({
                let m = rect_min_b(g, ys as int, yy as int, xs as int, xe as int);
                let rm = row_min_b(g, yy as int, xs as int, xe as int);
                if rm < m {
                    rm
                } else {
                    m
                }
            }));
        }
        yy = yy + 1;
    }
    (mx, mn)
}

/// Fraction of 8x8 blocks whose brightness range (max minus min of the
/// per-pixel channel mean) exceeds 100 — text regions have high contrast.
pub fn detect_text_regions(image: &Image) -> (r: Ratio)
    requires
        image.wf(),
        image@.w >= 1,
        image@.h >= 1,
        image@.w * image@.h <= 0x1_0000_0000,
    ensures
        r == text_likelihood_of(image@),
        r.wf(),
{
    let ghost g = image@;
    let w = image.width;
    let h = image.height;
    let nbx: usize = w / 8 + (if w % 8 != 0 {
        1
    } else {
        0
    });
    let nby: usize = h / 8 + (if h % 8 != 0 {
        1
    } else {
        0
    });
    proof {
        vstd::arithmetic::div_mod::lemma_fundamental_div_mod(w as int, 8);
        vstd::arithmetic::div_mod::lemma_fundamental_div_mod(h as int, 8);
        assert(nbx == (g.w + 7) / 8 && nby == (g.h + 7) / 8 && 1 <= nbx && 1 <= nby && nbx <= g.w
            && nby <= g.h) by (nonlinear_arith)
            requires
                g.w == w as int,
                g.h == h as int,
                1 <= w,
                1 <= h,
                8 * ((w as int) / 8) + (w as int) % 8 == w as int,
                0 <= (w as int) % 8 < 8,
                8 * ((h as int) / 8) + (h as int) % 8 == h as int,
                0 <= (h as int) % 8 < 8,
                nbx as int == (w as int) / 8 + (if (w as int) % 8 != 0 {
                    1int
                } else {
                    0int
                }),
                nby as int == (h as int) / 8 + (if (h as int) % 8 != 0 {
                    1int
                } else {
                    0int
                }),
        ;
    }
    let mut high: u64 = 0;
    let mut total: u64 = 0;
    let mut by: usize = 0;
    while by < nby
        invariant
            image.wf(),
            g == image@,
            w == g.w,
            h == g.h,
            1 <= w,
            1 <= h,
            g.w * g.h <= 0x1_0000_0000,
            nbx == (g.w + 7) / 8,
            nby == (g.h + 7) / 8,
            1 <= nbx <= g.w,
            1 <= nby <= g.h,
            by <= nby,
            total == rect_count(0, by as int, 0, nbx as int, all_pred()),
            high == rect_count(0, by as int, 0, nbx as int, text_pred(g)),
            high <= total <= 0x1_0000_0000,
        decreases nby - by,
    {
        let mut bx: usize = 0;
        while bx < nbx
            invariant
                image.wf(),
                g == image@,
                w == g.w,
                h == g.h,
                1 <= w,
                1 <= h,
                g.w * g.h <= 0x1_0000_0000,
                nbx == (g.w + 7) / 8,
                nby == (g.h + 7) / 8,
                1 <= nbx <= g.w,
                1 <= nby <= g.h,
                by < nby,
                bx <= nbx,
                total == rect_count(0, by as int, 0, nbx as int, all_pred()) + row_count(
                    by as int,
                    0,
                    bx as int,
                    all_pred(),
                ),
                high == rect_count(0, by as int, 0, nbx as int, text_pred(g)) + row_count(
                    by as int,
                    0,
                    bx as int,
                    text_pred(g),
                ),
                high <= total <= 0x1_0000_0000,
            decreases nbx - bx,
        {
            proof {
                lemma_rect_count_bounds(0, by as int, 0, nbx as int, all_pred());
                lemma_row_count_bounds(by as int, 0, bx as int, all_pred());
                assert((by as int) * (nbx as int) + (bx as int) + 1 <= g.w * g.h)
                    by (nonlinear_arith)
                    requires
                        0 <= (by as int) < (nby as int),
                        0 <= (bx as int) < (nbx as int),
                        1 <= nbx <= g.w,
                        1 <= nby <= g.h,
                        1 <= g.w,
                        1 <= g.h,
                ;
                vstd::arithmetic::div_mod::lemma_fundamental_div_mod(g.w + 7, 8);
                vstd::arithmetic::div_mod::lemma_mod_division_less_than_divisor(g.w + 7, 8);
                vstd::arithmetic::div_mod::lemma_fundamental_div_mod(g.h + 7, 8);
                vstd::arithmetic::div_mod::lemma_mod_division_less_than_divisor(g.h + 7, 8);
                assert(8 * (bx as int) < g.w && 8 * (by as int) < g.h) by (nonlinear_arith)
                    requires
                        (bx as int) < (g.w + 7) / 8,
                        (by as int) < (g.h + 7) / 8,
                        8 * ((g.w + 7) / 8) + (g.w + 7) % 8 == g.w + 7,
                        0 <= (g.w + 7) % 8 < 8,
                        8 * ((g.h + 7) / 8) + (g.h + 7) % 8 == g.h + 7,
                        0 <= (g.h + 7) % 8 < 8,
                        0 <= bx,
                        0 <= by,
                ;
            }
            let xs = 8 * bx;
            let xe = if w >= 8 && xs <= w - 8 {
                xs + 8
            } else {
                w
            };
            let ys = 8 * by;
            let ye = if h >= 8 && ys <= h - 8 {
                ys + 8
            } else {
                h
            };
            let (mx, mn) = block_range(image, xs, xe, ys, ye);
            total = total + 1;
            if mx as i64 - mn as i64 > 100 {
                high = high + 1;
            }
            proof {
                assert(text_pred(g)(bx as int, by as int) == text_block_at(g, bx as int, by as int));
                assert(all_pred()(bx as int, by as int));
                assert(row_count(by as int, 0, bx + 1, all_pred()) == row_count(
                    by as int,
                    0,
                    bx as int,
                    all_pred(),
                ) + 1);
                assert(row_count(by as int, 0, bx + 1, text_pred(g)) == row_count(
                    by as int,
                    0,
                    bx as int,
                    text_pred(g),
                ) + if text_block_at(g, bx as int, by as int) {
                    1int
                } else {
                    0int
                });
            }
            bx = bx + 1;
        }
        proof {
            assert(rect_count(0, by + 1, 0, nbx as int, all_pred()) == rect_count(
                0,
                by as int,
                0,
                nbx as int,
                all_pred(),
            ) + row_count(by as int, 0, nbx as int, all_pred()));
            assert(rect_count(0, by + 1, 0, nbx as int, text_pred(g)) == rect_count(
                0,
                by as int,
                0,
                nbx as int,
                text_pred(g),
            ) + row_count(by as int, 0, nbx as int, text_pred(g)));
        }
        by = by + 1;
    }
    if total == 0 {
        Ratio { num: 0, den: 1 }
    } else {
        Ratio { num: high, den: total }
    }
}

/// Sum of a cell value over row `y`, columns `[xs, xe)`.
pub open spec fn row_vsum(y: int, xs: int, xe: int, f: spec_fn(int, int) -> int) -> int
    decreases xe - xs,
{
    if xe <= xs {
        0
    } else {
        row_vsum(y, xs, xe - 1, f) + f(xe - 1, y)
    }
}

/// Sum of a cell value over the rectangle `[xs, xe) x [ys, ye)`.
pub open spec fn rect_vsum(ys: int, ye: int, xs: int, xe: int, f: spec_fn(int, int) -> int) -> int
    decreases ye - ys,
{
    if ye <= ys {
        0
    } else {
        rect_vsum(ys, ye - 1, xs, xe, f) + row_vsum(ye - 1, xs, xe, f)
    }
}

/// A row value sum of cells bounded by `b` is bounded by `b` per cell.
pub proof fn lemma_row_vsum_bounds(y: int, xs: int, xe: int, f: spec_fn(int, int) -> int, b: int)
    requires
        forall|x: int, yy: int| 0 <= #[trigger] f(x, yy) <= b,
    ensures
        0 <= row_vsum(y, xs, xe, f) <= b * (if xe >= xs {
            xe - xs
        } else {
            0
        }),
    decreases xe - xs,
{
    if xe > xs {
        lemma_row_vsum_bounds(y, xs, xe - 1, f, b);
        assert(b * (xe - 1 - xs) + b == b * (xe - xs)) by (nonlinear_arith);
        assert(0 <= f(xe - 1, y) <= b);
    } else {
        assert(b * 0 == 0) by (nonlinear_arith);
    }
}

/// A rectangle value sum of cells bounded by `b` is bounded by `b` per cell.
pub proof fn lemma_rect_vsum_bounds(
    ys: int,
    ye: int,
    xs: int,
    xe: int,
    f: spec_fn(int, int) -> int,
    b: int,
)
    requires
        forall|x: int, yy: int| 0 <= #[trigger] f(x, yy) <= b,
    ensures
        0 <= rect_vsum(ys, ye, xs, xe, f) <= b * ((if ye >= ys {
            ye - ys
        } else {
            0
        }) * (if xe >= xs {
            xe - xs
        } else {
            0
        })),
    decreases ye - ys,
{
    let h = if ye >= ys {
        ye - ys
    } else {
        0
    };
    let w = if xe >= xs {
        xe - xs
    } else {
        0
    };
    if ye > ys {
        lemma_rect_vsum_bounds(ys, ye - 1, xs, xe, f, b);
        lemma_row_vsum_bounds(ye - 1, xs, xe, f, b);
        assert(b * ((h - 1) * w) + b * w == b * (h * w)) by (nonlinear_arith);
    } else {
        assert(b * (h * w) == 0) by (nonlinear_arith)
            requires
                h == 0,
        ;
    }
}

/// The absolute value of an integer.
pub open spec fn abs_i(v: int) -> int {
    if v < 0 {
        -v
    } else {
        v
    }
}

/// Twelve times the noise of interior pixel `(x, y)`: the sum over channels
/// of `|4 c - (left + right + top + bottom)|`, which is twelve times the
/// mean absolute deviation from the average of the 4-connected neighbors.
pub open spec fn noise12_at(g: GridV, x: int, y: int) -> int {
    let c = g.at(x, y);
    let l = g.at(x - 1, y);
    let r = g.at(x + 1, y);
    let t = g.at(x, y - 1);
    let b = g.at(x, y + 1);
    abs_i(4 * c.r - (l.r + r.r + t.r + b.r)) + abs_i(4 * c.g - (l.g + r.g + t.g + b.g)) + abs_i(
        4 * c.b - (l.b + r.b + t.b + b.b),
    )
}

/// The noise value of a grid, as a cell value.
pub open spec fn noise_val(g: GridV) -> spec_fn(int, int) -> int {
    |x: int, y: int| noise12_at(g, x, y)
}

/// The mean absolute deviation of each interior pixel from the average of
/// its 4-connected neighbors, normalized by 255.
pub open spec fn noise_level_of(g: GridV) -> Ratio {
    let cnt = rect_count(1, g.h - 1, 1, g.w - 1, all_pred());
    let sum = rect_vsum(1, g.h - 1, 1, g.w - 1, noise_val(g));
    if cnt == 0 {
        Ratio { num: 0u64, den: 1u64 }
    } else {
        Ratio { num: sum as u64, den: (3060 * cnt) as u64 }
    }
}

/// Twelve times the noise of one interior pixel, on machine integers.
fn noise12_exec(image: &Image, x: usize, y: usize) -> (r: u64)
    requires
        image.wf(),
        1 <= x,
        x + 1 < image@.w,
        1 <= y,
        y + 1 < image@.h,
    ensures
        r == noise12_at(image@, x as int, y as int),
        r <= 3060,
{
    let c = image.get_pixel(x, y).unwrap();
    let l = image.get_pixel(x - 1, y).unwrap();
    let rr = image.get_pixel(x + 1, y).unwrap();
    let t = image.get_pixel(x, y - 1).unwrap();
    let b = image.get_pixel(x, y + 1).unwrap();
    let dr: i64 = 4 * c.r as i64 - (l.r as i64 + rr.r as i64 + t.r as i64 + b.r as i64);
    let dg: i64 = 4 * c.g as i64 - (l.g as i64 + rr.g as i64 + t.g as i64 + b.g as i64);
    let db: i64 = 4 * c.b as i64 - (l.b as i64 + rr.b as i64 + t.b as i64 + b.b as i64);
    let ar: i64 = if dr < 0 {
        -dr
    } else {
        dr
    };
    let ag: i64 = if dg < 0 {
        -dg
    } else {
        dg
    };
    let ab: i64 = if db < 0 {
        -db
    } else {
        db
    };
    (ar + ag + ab) as u64
}

/// Mean absolute deviation of each interior pixel from the average of its
/// 4-connected neighbors, normalized by 255 (0 = clean, 1 = maximal noise).
pub fn calculate_noise_level(image: &Image) -> (r: Ratio)
    requires
        image.wf(),
        image@.w >= 1,
        image@.h >= 1,
        image@.w * image@.h <= 0x1_0000_0000,
    ensures
        r == noise_level_of(image@),
        r.wf(),
{
    let ghost g = image@;
    let w = image.width;
    let h = image.height;
    proof {
        assert forall|x: int, yy: int| 0 <= #[trigger] noise_val(g)(x, yy) <= 3060 by {
            assert(noise_val(g)(x, yy) == noise12_at(g, x, yy));
        }
    }
    let mut sum: u64 = 0;
    let mut cnt: u64 = 0;
    let mut y: usize = 1;
    while y + 1 < h
        invariant
            image.wf(),
            g == image@,
            w == g.w,
            h == g.h,
            1 <= w,
            1 <= h,
            g.w * g.h <= 0x1_0000_0000,
            1 <= y,
            h >= 2 ==> y <= h - 1,
            h < 2 ==> y == 1,
            cnt == rect_count(1, y as int, 1, w - 1, all_pred()),
            sum == rect_vsum(1, y as int, 1, w - 1, noise_val(g)),
            cnt <= 0x1_0000_0000,
            sum <= 3060 * cnt,
        decreases h - y,
    {
        let mut x: usize = 1;
        while x + 1 < w
            invariant
                image.wf(),
                g == image@,
                w == g.w,
                h == g.h,
                1 <= w,
                1 <= h,
                g.w * g.h <= 0x1_0000_0000,
                1 <= y,
                y + 1 < h,
                1 <= x,
                w >= 2 ==> x <= w - 1,
                w < 2 ==> x == 1,
                cnt == rect_count(1, y as int, 1, w - 1, all_pred()) + row_count(
                    y as int,
                    1,
                    x as int,
                    all_pred(),
                ),
                sum == rect_vsum(1, y as int, 1, w - 1, noise_val(g)) + row_vsum(
                    y as int,
                    1,
                    x as int,
                    noise_val(g),
                ),
                cnt <= 0x1_0000_0000,
                sum <= 3060 * cnt,
            decreases w - x,
        {
            proof {
                lemma_rect_count_bounds(1, y as int, 1, w - 1, all_pred());
                lemma_row_count_bounds(y as int, 1, x as int, all_pred());
                assert((y - 1) * (w - 2) + (x - 1) + 1 <= g.w * g.h) by (nonlinear_arith)
                    requires
                        1 <= y,
                        (y as int) + 1 < (h as int),
                        1 <= x,
                        (x as int) + 1 < (w as int),
                        g.w == w as int,
                        g.h == h as int,
                ;
            }
            let nv = noise12_exec(image, x, y);
            cnt = cnt + 1;
            sum = sum + nv;
            proof {
                assert(noise_val(g)(x as int, y as int) == noise12_at(g, x as int, y as int));
                assert(all_pred()(x as int, y as int));
                assert(row_count(y as int, 1, x + 1, all_pred()) == row_count(
                    y as int,
                    1,
                    x as int,
                    all_pred(),
                ) + 1);
                assert(row_vsum(y as int, 1, x + 1, noise_val(g)) == row_vsum(
                    y as int,
                    1,
                    x as int,
                    noise_val(g),
                ) + noise12_at(g, x as int, y as int));
            }
            x = x + 1;
        }
        proof {
            if w >= 2 {
                assert(x as int == w - 1);
            } else {
                assert(row_count(y as int, 1, x as int, all_pred()) == 0);
                assert(row_count(y as int, 1, w - 1, all_pred()) == 0);
                assert(row_vsum(y as int, 1, x as int, noise_val(g)) == 0);
                assert(row_vsum(y as int, 1, w - 1, noise_val(g)) == 0);
            }
            assert(rect_count(1, y + 1, 1, w - 1, all_pred()) == rect_count(
                1,
                y as int,
                1,
                w - 1,
                all_pred(),
            ) + row_count(y as int, 1, w - 1, all_pred()));
            assert(rect_vsum(1, y + 1, 1, w - 1, noise_val(g)) == rect_vsum(
                1,
                y as int,
                1,
                w - 1,
                noise_val(g),
            ) + row_vsum(y as int, 1, w - 1, noise_val(g)));
        }
        y = y + 1;
    }
    proof {
        if h >= 2 {
            assert(y as int == h - 1);
        } else {
            assert(rect_count(1, g.h - 1, 1, g.w - 1, all_pred()) == 0);
            assert(rect_vsum(1, g.h - 1, 1, g.w - 1, noise_val(g)) == 0);
        }
    }
    if cnt == 0 {
        Ratio { num: 0, den: 1 }
    } else {
        Ratio { num: sum, den: 3060 * cnt }
    }
}

/// The fixed, order-sensitive decision table, evaluated top to bottom with
/// the first match winning.
pub open spec fn classify_spec(cc: int, es: Ratio, gs: Ratio, tl: Ratio) -> ContentType {
    if cc < 256 && es.exceeds_spec(7, 10) {
        ContentType::PixelArt
    } else if tl.exceeds_spec(1, 2) && es.exceeds_spec(6, 10) {
        ContentType::Text
    } else if tl.exceeds_spec(3, 10) && tl.below_spec(6, 10) {
        ContentType::Screenshot
    } else if gs.exceeds_spec(6, 10) && cc > 4096 {
        ContentType::Photography
    } else if cc > 256 && cc < 8192 {
        ContentType::Artwork
    } else {
        ContentType::Mixed
    }
}

/// Classify content from the measured metrics: few colors with sharp edges
/// are pixel art; high contrast with sharp edges is text; a moderate text
/// likelihood is a screenshot; smooth gradients over many colors are
/// photography; moderate color complexity is artwork; anything else is
/// mixed.
pub fn classify_content(
    color_count: usize,
    edge_sharpness: Ratio,
    gradient_smoothness: Ratio,
    text_likelihood: Ratio,
) -> (r: ContentType)
    requires
        edge_sharpness.wf(),
        gradient_smoothness.wf(),
        text_likelihood.wf(),
    ensures
        r == classify_spec(
            color_count as int,
            edge_sharpness,
            gradient_smoothness,
            text_likelihood,
        ),
{
    if color_count < 256 && edge_sharpness.exceeds(7, 10) {
        return ContentType::PixelArt;
    }
    if text_likelihood.exceeds(1, 2) && edge_sharpness.exceeds(6, 10) {
        return ContentType::Text;
    }
    if text_likelihood.exceeds(3, 10) && text_likelihood.below(6, 10) {
        return ContentType::Screenshot;
    }
    if gradient_smoothness.exceeds(6, 10) && color_count > 4096 {
        return ContentType::Photography;
    }
    if color_count > 256 && color_count < 8192 {
        return ContentType::Artwork;
    }
    ContentType::Mixed
}

/// The 24-bit color key of a pixel.
pub open spec fn color_key(p: Pixel) -> int {
    p.r * 0x1_0000 + p.g * 0x100 + p.b
}

/// The set of distinct color keys among the first `i` pixels, sampled at the
/// given stride.
pub open spec fn sampled_colors(d: Seq<Pixel>, step: int, i: int) -> Set<int>
    decreases i,
{
    if i <= 0 {
        Set::empty()
    } else if (i - 1) % step == 0 {
        sampled_colors(d, step, i - 1).insert(color_key(d[i - 1]))
    } else {
        sampled_colors(d, step, i - 1)
    }
}

/// The sampled color sets are finite.
proof fn lemma_sampled_finite(d: Seq<Pixel>, step: int, i: int)
    ensures
        sampled_colors(d, step, i).finite(),
    decreases i,
{
    if i > 0 {
        lemma_sampled_finite(d, step, i - 1);
    }
}

/// The sampled color sets grow with the prefix.
proof fn lemma_sampled_colors_props(d: Seq<Pixel>, step: int, i: int, j: int)
    requires
        0 <= i <= j,
    ensures
        sampled_colors(d, step, i).finite(),
        sampled_colors(d, step, i).subset_of(sampled_colors(d, step, j)),
        sampled_colors(d, step, i).len() <= sampled_colors(d, step, j).len(),
    decreases j - i,
{
    lemma_sampled_finite(d, step, i);
    if i < j {
        lemma_sampled_colors_props(d, step, i, j - 1);
        lemma_sampled_finite(d, step, j);
        assert(sampled_colors(d, step, j - 1).subset_of(sampled_colors(d, step, j)));
        lemma_len_subset(sampled_colors(d, step, i), sampled_colors(d, step, j));
    }
}

/// The sampling stride for an image with `n` pixels: chosen so that about
/// 10000 pixels are inspected, and at least 1.
pub open spec fn color_sample_step(n: int) -> int {
    if n / 10000 >= 1 {
        n / 10000
    } else {
        1
    }
}

/// Whether a `u32` occurs in a vector.
fn vec_contains_u32(v: &Vec<u32>, c: u32) -> (r: bool)
    ensures
        r == v@.contains(c),
{
    let n = v.len();
    let mut i: usize = 0;
    while i < n
        invariant
            i <= n,
            n == v@.len(),
            forall|j: int| 0 <= j < i ==> v@[j] != c,
        decreases n - i,
    {
        if v[i] == c {
            return true;
        }
        i = i + 1;
    }
    false
}

/// Count the distinct 24-bit colors of the image, sampling at a stride that
/// inspects about 10000 pixels; counting short-circuits once more than 4096
/// distinct colors are seen, returning exactly 4097.
pub fn count_unique_colors(image: &Image) -> (r: usize)
    requires
        image.wf(),
    ensures
        ({
            let full = sampled_colors(
                image@.d,
                color_sample_step((image@.w * image@.h) as int),
                image@.d.len() as int,
            );
            &&& full.len() <= 4096 ==> r == full.len()
            &&& full.len() > 4096 ==> r == 4097
        }),
{
    let n = image.pixels.len();
    proof {
        assert(image@.w * image@.h == n);
    }
    let step_raw = n / 10000;
    let step: usize = if step_raw >= 1 {
        step_raw
    } else {
        1
    };
    let ghost d = image@.d;
    let mut colors: Vec<u32> = Vec::new();
    let mut i: usize = 0;
    while i < n
        invariant
            i <= n,
            n == d.len(),
            d == image@.d,
            image.wf(),
            step == color_sample_step(n as int),
            1 <= step,
            forall|c: u32| colors@.contains(c) <==> sampled_colors(d, step as int, i as int).contains(c as int),
            forall|j: int| 0 <= j < colors@.len() ==> (#[trigger] colors@[j]) <= 0xFF_FFFF,
            colors@.len() == sampled_colors(d, step as int, i as int).len(),
            colors@.len() <= 4096,
        decreases n - i,
    {
        proof {
            lemma_sampled_colors_props(d, step as int, i as int, i as int);
        }
        if i % step == 0 {
            let px = image.pixels[i];
            let pr = px.r;
            let pg = px.g;
            let pb = px.b;
            let c: u32 = ((pr as u32) << 16) | ((pg as u32) << 8) | (pb as u32);
            proof {
                assert(c == (pr as u32) * 0x1_0000 + (pg as u32) * 0x100 + (pb as u32) && c
                    <= 0xFF_FFFF) by (bit_vector)
                    requires
                        c == ((pr as u32) << 16) | ((pg as u32) << 8) | (pb as u32),
                ;
                assert(c == color_key(d[i as int]));
            }
            let ghost s_old = sampled_colors(d, step as int, i as int);
            let ghost s_new = sampled_colors(d, step as int, i + 1);
            proof {
                assert(s_new == s_old.insert(c as int));
            }
            if !vec_contains_u32(&colors, c) {
                let ghost old_colors = colors@;
                proof {
                    assert(!s_old.contains(c as int));
                }
                colors.push(c);
                proof {
                    assert forall|cc: u32| colors@.contains(cc) <==> s_new.contains(cc as int) by {
                        if colors@.contains(cc) {
                            let j = choose|j: int| 0 <= j < colors@.len() && colors@[j] == cc;
                            if j < colors@.len() - 1 {
                                assert(old_colors[j] == cc);
                                assert(old_colors.contains(cc));
                            } else {
                                assert(cc == c);
                            }
                        }
                        if s_new.contains(cc as int) {
                            if cc == c {
                                assert(colors@[colors@.len() - 1] == cc);
                            } else {
                                assert(s_old.contains(cc as int));
                                assert(old_colors.contains(cc));
                                let j = choose|j: int|
                                    0 <= j < old_colors.len() && old_colors[j] == cc;
                                assert(colors@[j] == cc);
                            }
                        }
                    }
                }
                if colors.len() > 4096 {
                    proof {
                        lemma_sampled_colors_props(d, step as int, i + 1, n as int);
                    }
                    let r = colors.len();
                    return r;
                }
            } else {
                proof {
                    assert(s_old.contains(c as int));
                    assert(s_new =~= s_old);
                }
            }
        } else {
            proof {
                assert((i as int) % (step as int) != 0);
                assert(sampled_colors(d, step as int, i + 1) == sampled_colors(
                    d,
                    step as int,
                    i as int,
                ));
            }
        }
        i = i + 1;
    }
    colors.len()
}

/// The color count the sampled counter reports: the exact distinct count up
/// to 4096, and 4097 as soon as the count exceeds 4096.
pub open spec fn color_count_of(g: GridV) -> int {
    let full = sampled_colors(g.d, color_sample_step(g.w * g.h), g.d.len() as int);
    if full.len() <= 4096 {
        full.len() as int
    } else {
        4097
    }
}

/// The five measured metrics of an image and the category the decision table
/// assigns; derived once per image and read-only thereafter.
#[derive(Debug, Clone, Copy, PartialEq, Eq, Structural)]
pub struct ContentAnalysis {
    pub content_type: ContentType,
    pub color_count: usize,
    pub edge_sharpness: Ratio,
    pub gradient_smoothness: Ratio,
    pub text_likelihood: Ratio,
    pub noise_level: Ratio,
}

/// The full analysis of a grid: a function of the image content alone, so
/// analyzing the same image twice yields identical values.
pub open spec fn analysis_spec(g: GridV) -> ContentAnalysis {
    let cc = color_count_of(g);
    let es = edge_sharpness_of(g);
    let gs = gradient_smoothness_of(g);
    let tl = text_likelihood_of(g);
    let nl = noise_level_of(g);
    ContentAnalysis {
        content_type: classify_spec(cc, es, gs, tl),
        color_count: cc as usize,
        edge_sharpness: es,
        gradient_smoothness: gs,
        text_likelihood: tl,
        noise_level: nl,
    }
}

impl ContentAnalysis {
    /// Measure the five metrics of the image and classify it with the fixed
    /// decision table. The result is a function of the pixel content alone.
    pub fn analyze(image: &Image) -> (r: ContentAnalysis)
        requires
            image.wf(),
            image@.w >= 1,
            image@.h >= 1,
            image@.w * image@.h <= 0x1_0000_0000,
        ensures
            r == analysis_spec(image@),
            r.edge_sharpness.wf(),
            r.gradient_smoothness.wf(),
            r.text_likelihood.wf(),
            r.noise_level.wf(),
            r.color_count <= 4097,
    {
        let color_count = count_unique_colors(image);
        let edge_sharpness = calculate_edge_sharpness(image);
        let gradient_smoothness = calculate_gradient_smoothness(image);
        let text_likelihood = detect_text_regions(image);
        let noise_level = calculate_noise_level(image);
        let content_type = classify_content(
            color_count,
            edge_sharpness,
            gradient_smoothness,
            text_likelihood,
        );
        ContentAnalysis {
            content_type,
            color_count,
            edge_sharpness,
            gradient_smoothness,
            text_likelihood,
            noise_level,
        }
    }
}

} // verus!
