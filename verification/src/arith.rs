//! Small arithmetic helpers shared by the resampling kernels: product bounds,
//! floor division of signed values, and integer square roots.

use vstd::prelude::*;
use vstd::arithmetic::div_mod::lemma_div_is_ordered;

verus! {

/// Bound on a product of two bounded nonnegative factors.
pub proof fn lemma_mul_bound(x: int, xb: int, y: int, yb: int)
    requires
        0 <= x <= xb,
        0 <= y <= yb,
    ensures
        x * y <= xb * yb,
{
    assert(x * y <= xb * yb) by (nonlinear_arith)
        requires
            0 <= x <= xb,
            0 <= y <= yb,
    ;
}

/// Division of a bounded nonnegative value by a positive value keeps the
/// quotient below the bound of the numerator.
pub proof fn lemma_div_bound(num: int, bound: int, d: int)
    requires
        0 <= num,
        num <= bound * d,
        d >= 1,
    ensures
        0 <= num / d <= bound,
{
    assert(0 <= num / d) by (nonlinear_arith)
        requires
            0 <= num,
            d >= 1,
    ;
    lemma_div_is_ordered(num, bound * d, d);
    assert((bound * d) / d == bound) by (nonlinear_arith)
        requires
            d >= 1,
    ;
}

/// Bound on a product of a bounded nonnegative factor and a signed factor of
/// bounded magnitude.
pub proof fn lemma_mul_signed_bound(x: int, xb: int, w: int, wb: int)
    requires
        0 <= x <= xb,
        -wb <= w <= wb,
        0 <= wb,
    ensures
        -(xb * wb) <= x * w <= xb * wb,
{
    assert(-(xb * wb) <= x * w <= xb * wb) by (nonlinear_arith)
        requires
            0 <= x <= xb,
            -wb <= w <= wb,
            0 <= wb,
    ;
}

/// Bound on a product of two signed factors of bounded magnitude.
pub proof fn lemma_mul_abs_bound(x: int, xb: int, y: int, yb: int)
    requires
        -xb <= x <= xb,
        -yb <= y <= yb,
        0 <= xb,
        0 <= yb,
    ensures
        -(xb * yb) <= x * y <= xb * yb,
{
    assert(-(xb * yb) <= x * y <= xb * yb) by (nonlinear_arith)
        requires
            -xb <= x <= xb,
            -yb <= y <= yb,
            0 <= xb,
            0 <= yb,
    ;
}


/// The magnitude of a floor-divided quotient is bounded by the magnitude of
/// the numerator plus one.
pub proof fn lemma_div_magnitude(a: int, d: int, ab: int)
    requires
        1 <= d,
        -ab <= a <= ab,
        0 <= ab,
    ensures
        -(ab + 1) <= a / d <= ab + 1,
{
    vstd::arithmetic::div_mod::lemma_fundamental_div_mod(a, d);
    vstd::arithmetic::div_mod::lemma_mod_division_less_than_divisor(a, d);
    assert(-(ab + 1) <= a / d <= ab + 1) by (nonlinear_arith)
        requires
            1 <= d,
            -ab <= a <= ab,
            0 <= ab,
            d * (a / d) + (a % d) == a,
            0 <= a % d < d,
    ;
}

/// Euclidean quotient and remainder of an `i128` by a positive divisor: the
/// quotient is the floor of the real quotient and the remainder is in
/// `[0, b)`.
pub fn floor_div_mod_i128(a: i128, b: i128) -> (qr: (i128, i128))
    requires
        1 <= b,
        -0x4000_0000_0000_0000_0000_0000_0000_0000 < a,
    ensures
        qr.0 == a as int / b as int,
        qr.1 == a as int % b as int,
        0 <= qr.1 < b,
{
    let bu = b as u128;
    if a >= 0 {
        let au = a as u128;
        let q = au / bu;
        let r = au % bu;
        proof {
            vstd::arithmetic::div_mod::lemma_div_nonincreasing(a as int, b as int);
            vstd::arithmetic::div_mod::lemma_div_pos_is_pos(a as int, b as int);
        }
        (q as i128, r as i128)
    } else {
        let na = (-a) as u128;
        let nq = na / bu;
        let nr = na % bu;
        proof {
            vstd::arithmetic::div_mod::lemma_div_nonincreasing(na as int, b as int);
            vstd::arithmetic::div_mod::lemma_div_pos_is_pos(na as int, b as int);
        }
        if nr == 0 {
            proof {
                vstd::arithmetic::div_mod::lemma_fundamental_div_mod(na as int, b as int);
                assert(a as int == (-(nq as int)) * (b as int) + 0) by (nonlinear_arith)
                    requires
                        na as int == (b as int) * (nq as int),
                        a as int == -(na as int),
                ;
                vstd::arithmetic::div_mod::lemma_fundamental_div_mod_converse(
                    a as int,
                    b as int,
                    -(nq as int),
                    0,
                );
            }
            (-(nq as i128), 0)
        } else {
            proof {
                vstd::arithmetic::div_mod::lemma_fundamental_div_mod(na as int, b as int);
                assert(a as int == (-(nq as int) - 1) * (b as int) + ((b as int) - (nr as int)))
                    by (nonlinear_arith)
                    requires
                        na as int == (b as int) * (nq as int) + (nr as int),
                        a as int == -(na as int),
                ;
                vstd::arithmetic::div_mod::lemma_fundamental_div_mod_converse(
                    a as int,
                    b as int,
                    -(nq as int) - 1,
                    (b as int) - (nr as int),
                );
            }
            (-(nq as i128) - 1, b - nr as i128)
        }
    }
}

/// Largest integer whose square does not exceed `n`.
pub open spec fn sqrt_floor(n: nat) -> nat
    decreases n,
{
    if n == 0 {
        0
    } else {
        let r = sqrt_floor((n - 1) as nat);
        if (r + 1) * (r + 1) <= n {
            r + 1
        } else {
            r
        }
    }
}

/// `sqrt_floor(n)` is indeed the floor of the square root of `n`.
pub proof fn lemma_sqrt_floor_props(n: nat)
    ensures
        sqrt_floor(n) * sqrt_floor(n) <= n,
        (sqrt_floor(n) + 1) * (sqrt_floor(n) + 1) > n,
    decreases n,
{
    if n == 0 {
        assert(sqrt_floor(0) == 0);
        assert((0 + 1) * (0 + 1) > 0) by (nonlinear_arith);
    } else {
        lemma_sqrt_floor_props((n - 1) as nat);
        let p = sqrt_floor((n - 1) as nat);
        assert(p * p <= n - 1 && (p + 1) * (p + 1) > n - 1);
        if (p + 1) * (p + 1) <= n {
            assert(sqrt_floor(n) == p + 1);
            assert((p + 1 + 1) * (p + 1 + 1) > n) by (nonlinear_arith)
                requires
                    (p + 1) * (p + 1) > n - 1,
            ;
        } else {
            assert(sqrt_floor(n) == p);
            assert(p * p <= n);
            assert((p + 1) * (p + 1) > n);
        }
    }
}

/// Any integer bracketing the square root of `n` is `sqrt_floor(n)`.
pub proof fn lemma_sqrt_floor_unique(n: nat, r: nat)
    requires
        r * r <= n,
        (r + 1) * (r + 1) > n,
    ensures
        r == sqrt_floor(n),
{
    lemma_sqrt_floor_props(n);
    let s = sqrt_floor(n);
    assert(r == s) by (nonlinear_arith)
        requires
            r * r <= n,
            (r + 1) * (r + 1) > n,
            s * s <= n,
            (s + 1) * (s + 1) > n,
            0 <= r,
            0 <= s,
    ;
}

/// Largest integer whose square does not exceed `n`.
pub fn isqrt_u64(n: u64) -> (r: u64)
    ensures
        r * r <= n,
        (r + 1) * (r + 1) > n,
        r == sqrt_floor(n as nat),
{
    let mut lo: u64 = 0;
    let mut hi: u64 = if n < 0xFFFF_FFFF {
        n + 1
    } else {
        0x1_0000_0000
    };
    proof {
        assert(hi * hi > n) by (nonlinear_arith)
            requires
                (n < 0xFFFF_FFFF && hi == n + 1) || (n >= 0xFFFF_FFFF && hi == 0x1_0000_0000),
        ;
    }
    // binary search for the last root whose square is within n
    while lo + 1 < hi
        invariant
            lo < hi <= 0x1_0000_0000,
            lo * lo <= n,
            hi * hi > n,
        decreases hi - lo,
    {
        let mid: u64 = lo + (hi - lo) / 2;
        proof {
            assert(mid * mid <= 0xFFFF_FFFFu64 * 0xFFFF_FFFFu64) by (nonlinear_arith)
                requires
                    mid <= 0xFFFF_FFFFu64,
            ;
        }
        if mid * mid <= n {
            lo = mid;
        } else {
            hi = mid;
        }
    }
    proof {
        lemma_sqrt_floor_unique(n as nat, lo as nat);
    }
    lo
}

} // verus!
