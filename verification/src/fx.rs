//! Fixed-point scalar arithmetic.
//!
//! A scalar is an `i64` that holds the intended real value scaled by
//! [`ONE`].  Multiplication and division of two scalars therefore
//! rescale their result by [`ONE`], truncating toward zero exactly as
//! the hardware operators would; the spec functions in this module give
//! those operations their exact mathematical meaning, and every
//! executable operation is proved to return precisely the value of its
//! spec function.

use vstd::prelude::*;
use vstd::arithmetic::div_mod::{
    lemma_div_is_ordered, lemma_div_multiples_vanish, lemma_fundamental_div_mod,
};

verus! {

/// Raw units per whole unit: the fixed-point scale factor.
pub const ONE: i64 = 65536;

/// Largest magnitude, in raw units, allowed for a scene coordinate, a
/// sphere radius or a ray-direction component (768 whole units).  The
/// bound keeps every intermediate value of the sphere intersection
/// inside `i64`.
pub const COORD_MAX: i64 = 50331648;

/// Magnitude of an integer.
pub open spec fn iabs(x: int) -> int {
    if x < 0 {
        -x
    } else {
        x
    }
}

/// Does a mathematical value fit in an `i64`?
pub open spec fn i64_fits(x: int) -> bool {
    i64::MIN <= x <= i64::MAX
}

/// Division truncating toward zero: the behaviour of `/` on machine
/// integers (`int` division in specifications is Euclidean instead).
pub open spec fn tdiv(a: int, b: int) -> int
    recommends
        b != 0,
{
    if (a < 0) == (b < 0) {
        iabs(a) / iabs(b)
    } else {
        -(iabs(a) / iabs(b))
    }
}

/// Product of two fixed-point scalars: `a * b` rescaled by [`ONE`],
/// truncated toward zero.
pub open spec fn fx_mul_s(a: int, b: int) -> int {
    tdiv(a * b, ONE as int)
}

/// Quotient of two fixed-point scalars: `a / b` rescaled by [`ONE`],
/// truncated toward zero.
pub open spec fn fx_div_s(a: int, b: int) -> int
    recommends
        b != 0,
{
    tdiv(a * (ONE as int), b)
}

/// The integer square root: the largest `r` with `r * r <= x`.
pub open spec fn sqrt_floor(x: int) -> int
    recommends
        0 <= x,
    decreases x,
{
    if x < 1 {
        0
    } else {
        let r = 2 * sqrt_floor(x / 4);
        if (r + 1) * (r + 1) <= x {
            r + 1
        } else {
            r
        }
    }
}

/// Square root of a nonnegative fixed-point scalar, truncated toward
/// zero: `sqrt(a / ONE) * ONE == sqrt(a * ONE)`.
pub open spec fn fx_sqrt_s(a: int) -> int
    recommends
        0 <= a,
{
    sqrt_floor(a * (ONE as int))
}

/// The magnitude of a product is the product of the magnitudes.
pub proof fn lemma_iabs_mul(a: int, b: int)
    ensures
        iabs(a * b) == iabs(a) * iabs(b),
{
    assert(iabs(a * b) == iabs(a) * iabs(b)) by (nonlinear_arith);
}

/// The sign of a product, from the signs of its factors.
pub proof fn lemma_sign_cases(a: int, b: int)
    ensures
        (a < 0) == (b < 0) ==> 0 <= a * b,
        ((a < 0) != (b < 0)) && a != 0 && b != 0 ==> a * b < 0,
        a == 0 || b == 0 ==> a * b == 0,
{
    assert((a < 0) == (b < 0) ==> 0 <= a * b) by (nonlinear_arith);
    assert(((a < 0) != (b < 0)) && a != 0 && b != 0 ==> a * b < 0) by (nonlinear_arith);
    assert(a == 0 || b == 0 ==> a * b == 0) by (nonlinear_arith);
}

/// [`sqrt_floor`] is what its name says: it is nonnegative, its square
/// is at most `x`, and the next square is beyond `x`.
pub proof fn lemma_sqrt_floor_props(x: int)
    requires
        0 <= x,
    ensures
        0 <= sqrt_floor(x),
        sqrt_floor(x) * sqrt_floor(x) <= x,
        x < (sqrt_floor(x) + 1) * (sqrt_floor(x) + 1),
    decreases x,
{
    if x < 1 {
    } else {
        lemma_sqrt_floor_props(x / 4);
        let s = sqrt_floor(x / 4);
        let r = 2 * s;
        lemma_fundamental_div_mod(x, 4);
        assert(4 * (x / 4) <= x < 4 * (x / 4) + 4);
        assert(r * r <= x) by (nonlinear_arith)
            requires
                s * s <= x / 4,
                4 * (x / 4) <= x,
                r == 2 * s,
        ;
        assert(x < (r + 2) * (r + 2)) by (nonlinear_arith)
            requires
                x / 4 < (s + 1) * (s + 1),
                x < 4 * (x / 4) + 4,
                r == 2 * s,
        ;
        if (r + 1) * (r + 1) <= x {
            assert(sqrt_floor(x) == r + 1);
        } else {
            assert(sqrt_floor(x) == r);
        }
    }
}

/// Any `r` squeezed between consecutive squares around `x` is the
/// integer square root of `x`.
pub proof fn lemma_sqrt_floor_unique(x: int, r: int)
    requires
        0 <= r,
        r * r <= x,
        x < (r + 1) * (r + 1),
    ensures
        r == sqrt_floor(x),
{
    lemma_sqrt_floor_props(x);
    let s = sqrt_floor(x);
    if r < s {
        assert((r + 1) * (r + 1) <= s * s) by (nonlinear_arith)
            requires
                0 <= r,
                r + 1 <= s,
        ;
    }
    if s < r {
        assert((s + 1) * (s + 1) <= r * r) by (nonlinear_arith)
            requires
                0 <= s,
                s + 1 <= r,
        ;
    }
}

/// The integer square root of anything at most `b * b` is at most `b`.
pub proof fn lemma_sqrt_floor_le(x: int, b: int)
    requires
        0 <= x,
        0 <= b,
        x <= b * b,
    ensures
        sqrt_floor(x) <= b,
{
    lemma_sqrt_floor_props(x);
    let s = sqrt_floor(x);
    if b < s {
        assert((b + 1) * (b + 1) <= s * s) by (nonlinear_arith)
            requires
                0 <= b,
                b + 1 <= s,
        ;
        assert(b * b < (b + 1) * (b + 1)) by (nonlinear_arith)
            requires
                0 <= b,
        ;
    }
}

/// The integer square root is monotone.
pub proof fn lemma_sqrt_floor_mono(x: int, y: int)
    requires
        0 <= x <= y,
    ensures
        sqrt_floor(x) <= sqrt_floor(y),
{
    lemma_sqrt_floor_props(x);
    lemma_sqrt_floor_props(y);
    let sx = sqrt_floor(x);
    let sy = sqrt_floor(y);
    if sy < sx {
        assert((sy + 1) * (sy + 1) <= sx * sx) by (nonlinear_arith)
            requires
                0 <= sy,
                sy + 1 <= sx,
        ;
    }
}

/// Truncating division recovers an exact multiple.
pub proof fn lemma_tdiv_exact(k: int, d: int)
    requires
        d != 0,
    ensures
        tdiv(k * d, d) == k,
{
    lemma_iabs_mul(k, d);
    lemma_div_multiples_vanish(iabs(k), iabs(d));
    assert(iabs(d) * iabs(k) == iabs(k) * iabs(d));
    lemma_sign_cases(k, d);
}

/// Truncating division by a positive divisor is monotone in the
/// numerator.
pub proof fn lemma_tdiv_mono(a: int, b: int, d: int)
    requires
        a <= b,
        1 <= d,
    ensures
        tdiv(a, d) <= tdiv(b, d),
{
    if 0 <= a {
        lemma_div_is_ordered(a, b, d);
    } else if b < 0 {
        lemma_div_is_ordered(-b, -a, d);
    } else {
        assert(0 <= iabs(a) / d) by {
            lemma_div_is_ordered(0, iabs(a), d);
        }
        assert(0 <= iabs(b) / d) by {
            lemma_div_is_ordered(0, iabs(b), d);
        }
    }
}

/// Dividing zero gives zero.
pub proof fn lemma_tdiv_zero(d: int)
    requires
        d != 0,
    ensures
        tdiv(0, d) == 0,
{
    vstd::arithmetic::div_mod::lemma_div_basics(iabs(d));
}

/// Truncating division of a nonnegative value by a positive one stays
/// between zero and the numerator.
pub proof fn lemma_tdiv_nonneg_le(a: int, b: int)
    requires
        0 <= a,
        1 <= b,
    ensures
        0 <= tdiv(a, b) <= a,
{
    lemma_div_is_ordered(0, a, b);
    vstd::arithmetic::div_mod::lemma_div_nonincreasing(a, b);
}

/// Magnitude bound for a fixed-point product.
pub proof fn lemma_fx_mul_bound(a: int, b: int, m: int, n: int)
    requires
        iabs(a) <= m,
        iabs(b) <= n,
    ensures
        iabs(fx_mul_s(a, b)) <= m * n / 65536,
{
    lemma_iabs_mul(a, b);
    assert(iabs(a) * iabs(b) <= m * n) by (nonlinear_arith)
        requires
            0 <= iabs(a) <= m,
            0 <= iabs(b) <= n,
    ;
    lemma_div_is_ordered(iabs(a) * iabs(b), m * n, 65536);
    assert(0 <= iabs(a * b) / 65536) by {
        lemma_div_is_ordered(0, iabs(a * b), 65536);
    }
}

/// Magnitude bound for a fixed-point product whose left factor is
/// bounded by a whole-unit multiple: the scale factor cancels.
pub proof fn lemma_fx_mul_bound_scaled(a: int, b: int, m: int, n: int)
    requires
        iabs(a) <= m * 65536,
        iabs(b) <= n,
        0 <= m,
    ensures
        iabs(fx_mul_s(a, b)) <= m * n,
{
    lemma_iabs_mul(a, b);
    assert(iabs(a) * iabs(b) <= (m * n) * 65536) by (nonlinear_arith)
        requires
            0 <= iabs(a) <= m * 65536,
            0 <= iabs(b) <= n,
            0 <= m,
    ;
    lemma_div_is_ordered(iabs(a) * iabs(b), (m * n) * 65536, 65536);
    lemma_div_multiples_vanish(m * n, 65536);
    assert(65536 * (m * n) == (m * n) * 65536);
    assert(0 <= iabs(a * b) / 65536) by {
        lemma_div_is_ordered(0, iabs(a * b), 65536);
    }
}

/// Magnitude bound for a fixed-point quotient with denominator at least
/// one raw unit.
pub proof fn lemma_fx_div_bound(a: int, b: int, m: int)
    requires
        iabs(a) <= m,
        1 <= iabs(b),
    ensures
        iabs(fx_div_s(a, b)) <= m * 65536,
{
    lemma_iabs_mul(a, 65536);
    let p = iabs(a) * 65536;
    assert(iabs(a) * 65536 <= m * 65536) by (nonlinear_arith)
        requires
            0 <= iabs(a) <= m,
    ;
    assert(p / iabs(b) <= p / 1) by {
        vstd::arithmetic::div_mod::lemma_div_is_ordered_by_denominator(p, 1, iabs(b));
    }
    assert(p / 1 == p) by {
        vstd::arithmetic::div_mod::lemma_div_basics(p);
    }
    assert(0 <= p / iabs(b)) by {
        lemma_div_is_ordered(0, p, iabs(b));
    }
}

/// Magnitude of a value, widened to `u128`.
fn abs_u128(a: i64) -> (r: u128)
    ensures
        r == iabs(a as int),
{
    if a < 0 {
        (-(a as i128)) as u128
    } else {
        a as u128
    }
}

/// Reassemble a truncating quotient from the sign of the exact quotient
/// and the quotient of the magnitudes.
proof fn lemma_tdiv_parts(a: int, b: int, q: int)
    requires
        b != 0,
        q == iabs(a) / iabs(b),
    ensures
        (a < 0) == (b < 0) ==> tdiv(a, b) == q,
        (a < 0) != (b < 0) ==> tdiv(a, b) == -q,
{
}

/// Fixed-point product, truncating toward zero.
pub fn fx_mul(a: i64, b: i64) -> (r: i64)
    requires
        i64_fits(fx_mul_s(a as int, b as int)),
    ensures
        r == fx_mul_s(a as int, b as int),
{
    let neg = (a < 0) != (b < 0);
    let ua = abs_u128(a);
    let ub = abs_u128(b);
    proof {
        assert((ua as int) * (ub as int) <= 85070591730234615865843651857942052864int)
            by (nonlinear_arith)
            requires
                ua <= 9223372036854775808u128,
                ub <= 9223372036854775808u128,
        ;
    }
    let q = (ua * ub) / 65536;
    proof {
        lemma_iabs_mul(a as int, b as int);
        assert(ua * ub == iabs((a as int) * (b as int)));
        lemma_tdiv_parts((a as int) * (b as int), ONE as int, q as int);
        lemma_sign_cases(a as int, b as int);
        if a == 0 || b == 0 {
            assert(q == 0) by {
                assert((a as int) * (b as int) == 0) by (nonlinear_arith)
                    requires
                        a == 0 || b == 0,
                ;
            }
        }
    }
    if neg {
        (-(q as i128)) as i64
    } else {
        q as i64
    }
}

/// Fixed-point quotient, truncating toward zero.
pub fn fx_div(a: i64, b: i64) -> (r: i64)
    requires
        b != 0,
        i64_fits(fx_div_s(a as int, b as int)),
    ensures
        r == fx_div_s(a as int, b as int),
{
    let neg = (a < 0) != (b < 0);
    let ua = abs_u128(a);
    let ub = abs_u128(b);
    let q = (ua * 65536) / ub;
    proof {
        lemma_iabs_mul(a as int, ONE as int);
        assert(ua * 65536 == iabs((a as int) * (ONE as int)));
        lemma_tdiv_parts((a as int) * (ONE as int), b as int, q as int);
        lemma_sign_cases(a as int, ONE as int);
        if a == 0 {
            assert(q == 0) by {
                assert((a as int) * (ONE as int) == 0) by (nonlinear_arith)
                    requires
                        a == 0,
                ;
            }
        }
    }
    if neg {
        (-(q as i128)) as i64
    } else {
        q as i64
    }
}

/// Fixed-point product, reporting `None` instead of overflowing.
pub fn fx_mul_checked(a: i64, b: i64) -> (r: Option<i64>)
    ensures
        r == if i64_fits(fx_mul_s(a as int, b as int)) {
            Some(fx_mul_s(a as int, b as int) as i64)
        } else {
            None::<i64>
        },
{
    let neg = (a < 0) != (b < 0);
    let ua = abs_u128(a);
    let ub = abs_u128(b);
    proof {
        assert((ua as int) * (ub as int) <= 85070591730234615865843651857942052864int)
            by (nonlinear_arith)
            requires
                ua <= 9223372036854775808u128,
                ub <= 9223372036854775808u128,
        ;
    }
    let q = (ua * ub) / 65536;
    proof {
        lemma_iabs_mul(a as int, b as int);
        assert(ua * ub == iabs((a as int) * (b as int)));
        lemma_tdiv_parts((a as int) * (b as int), ONE as int, q as int);
        lemma_sign_cases(a as int, b as int);
        if a == 0 || b == 0 {
            assert(q == 0) by {
                assert((a as int) * (b as int) == 0) by (nonlinear_arith)
                    requires
                        a == 0 || b == 0,
                ;
            }
        }
    }
    if neg {
        if q > 9223372036854775808u128 {
            None
        } else {
            Some((-(q as i128)) as i64)
        }
    } else {
        if q > 9223372036854775807u128 {
            None
        } else {
            Some(q as i64)
        }
    }
}

/// Fixed-point quotient, reporting `None` when the magnitude of the
/// result would exceed `cap`.
pub fn fx_div_capped(a: i64, b: i64, cap: i64) -> (r: Option<i64>)
    requires
        b != 0,
        0 <= cap,
    ensures
        r == if iabs(fx_div_s(a as int, b as int)) <= cap as int {
            Some(fx_div_s(a as int, b as int) as i64)
        } else {
            None::<i64>
        },
{
    let neg = (a < 0) != (b < 0);
    let ua = abs_u128(a);
    let ub = abs_u128(b);
    let q = (ua * 65536) / ub;
    proof {
        lemma_iabs_mul(a as int, ONE as int);
        assert(ua * 65536 == iabs((a as int) * (ONE as int)));
        lemma_tdiv_parts((a as int) * (ONE as int), b as int, q as int);
        lemma_sign_cases(a as int, ONE as int);
        if a == 0 {
            assert(q == 0) by {
                assert((a as int) * (ONE as int) == 0) by (nonlinear_arith)
                    requires
                        a == 0,
                ;
            }
        }
    }
    if q > cap as u128 {
        None
    } else if neg {
        Some((-(q as i128)) as i64)
    } else {
        Some(q as i64)
    }
}

/// Integer square root over `u128`, by binary search.
fn isqrt_u128(x: u128) -> (r: u64)
    requires
        x < 1208925819614629174706176u128,  // 2^80
    ensures
        r == sqrt_floor(x as int),
{
    let mut lo: u128 = 0;
    let mut hi: u128 = 1099511627776u128;  // 2^40
    proof {
        assert((1099511627776int) * 1099511627776int == 1208925819614629174706176int);
    }
    while hi - lo > 1
        invariant
            0 <= lo < hi <= 1099511627776u128,
            (lo as int) * (lo as int) <= x as int,
            (x as int) < (hi as int) * (hi as int),
        decreases hi - lo,
    {
        let mid = lo + (hi - lo) / 2;
        assert(lo < mid < hi);
        proof {
            assert((mid as int) * (mid as int) <= 1208925819614629174706176int)
                by (nonlinear_arith)
                requires
                    mid <= 1099511627776u128,
            ;
        }
        let sq = mid * mid;
        if sq <= x {
            lo = mid;
        } else {
            hi = mid;
        }
    }
    proof {
        assert(hi == lo + 1);
        lemma_sqrt_floor_unique(x as int, lo as int);
    }
    lo as u64
}

/// Fixed-point square root, truncating toward zero.
pub fn fx_sqrt(a: i64) -> (r: i64)
    requires
        0 <= a,
    ensures
        r == fx_sqrt_s(a as int),
        0 <= r,
{
    let x = (a as u128) * 65536;
    let r = isqrt_u128(x);
    proof {
        lemma_sqrt_floor_props(x as int);
        assert((r as int) * (r as int) <= x as int);
        assert(r < 1099511627776u64) by (nonlinear_arith)
            requires
                (r as int) * (r as int) <= x as int,
                (x as int) < 1208925819614629174706176int,
                0 <= r as int,
        ;
    }
    r as i64
}

} // verus!
