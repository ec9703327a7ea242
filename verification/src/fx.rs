//! Fixed-point scalar arithmetic.
//!
//! A scalar is an `i64` holding the real value times `FX_ONE`. Products and
//! quotients are computed in 128-bit intermediates and scaled back with
//! floor division, so every operation has an exact integer specification.

use vstd::prelude::*;
use vstd::arithmetic::div_mod::*;
use vstd::arithmetic::mul::*;

verus! {

/// One whole unit of the fixed-point scale.
pub const FX_ONE: i64 = 65536;

/// The fixed-point product: `a * b` scaled back down by `FX_ONE`,
/// rounding toward negative infinity.
pub open spec fn fx_mul_spec(a: int, b: int) -> int {
    (a * b) / (FX_ONE as int)
}

/// The fixed-point quotient: `a / b` scaled up by `FX_ONE`,
/// rounding toward negative infinity. Meaningful for `b > 0`.
pub open spec fn fx_div_spec(a: int, b: int) -> int {
    (a * FX_ONE as int) / b
}

/// `r` is the integer square root of `x`, rounded down.
pub open spec fn is_sqrt_floor(x: int, r: int) -> bool {
    0 <= r && r * r <= x && x < (r + 1) * (r + 1)
}

/// The integer square root of `x`, rounded down (for `x >= 0`).
pub open spec fn sqrt_floor(x: int) -> int {
    choose|r: int| is_sqrt_floor(x, r)
}

/// The square root of a nonnegative fixed-point scalar, as a fixed-point
/// scalar: `sqrt(a / FX_ONE) * FX_ONE` is `sqrt_floor(a * FX_ONE)`.
pub open spec fn fx_sqrt_spec(a: int) -> int {
    sqrt_floor(a * FX_ONE as int)
}

/// Any two integer square roots of the same value agree, so a witness
/// pins down `sqrt_floor`.
pub proof fn lemma_sqrt_floor_unique(x: int, r: int)
    requires
        is_sqrt_floor(x, r),
    ensures
        sqrt_floor(x) == r,
{
    let rr = sqrt_floor(x);
    assert(is_sqrt_floor(x, rr));
    assert(rr == r) by (nonlinear_arith)
        requires
            0 <= r,
            r * r <= x,
            x < (r + 1) * (r + 1),
            0 <= rr,
            rr * rr <= x,
            x < (rr + 1) * (rr + 1),
    ;
}

/// Every nonnegative integer has an integer square root, so `sqrt_floor`
/// of it satisfies its defining property.
pub proof fn lemma_sqrt_floor_exists(x: int)
    requires
        0 <= x,
    ensures
        is_sqrt_floor(x, sqrt_floor(x)),
    decreases x,
{
    if x == 0 {
        assert(is_sqrt_floor(0, 0));
    } else {
        lemma_sqrt_floor_exists(x - 1);
        let r = sqrt_floor(x - 1);
        if x < (r + 1) * (r + 1) {
            assert(is_sqrt_floor(x, r));
        } else {
            assert(is_sqrt_floor(x, r + 1)) by (nonlinear_arith)
                requires
                    0 <= r,
                    r * r <= x - 1,
                    x - 1 < (r + 1) * (r + 1),
                    (r + 1) * (r + 1) <= x,
            ;
        }
    }
}

/// The integer square root never decreases as its argument grows.
pub proof fn lemma_sqrt_floor_monotonic(x: int, y: int)
    requires
        0 <= x <= y,
        is_sqrt_floor(x, sqrt_floor(x)),
        is_sqrt_floor(y, sqrt_floor(y)),
    ensures
        sqrt_floor(x) <= sqrt_floor(y),
{
    let rx = sqrt_floor(x);
    let ry = sqrt_floor(y);
    assert(rx <= ry) by (nonlinear_arith)
        requires
            0 <= rx,
            rx * rx <= x,
            x < (rx + 1) * (rx + 1),
            0 <= ry,
            ry * ry <= y,
            y < (ry + 1) * (ry + 1),
            x <= y,
    ;
}

/// Magnitude bound for a product, from magnitude bounds on the factors.
pub proof fn lemma_mul_abs_bound(a: int, b: int, aa: int, bb: int)
    by (nonlinear_arith)
    requires
        -aa <= a <= aa,
        -bb <= b <= bb,
    ensures
        -(aa * bb) <= a * b <= aa * bb,
{
}

/// Magnitude bound for a fixed-point product, from magnitude bounds on the
/// factors: enough both for the overflow side condition of `fx_mul` and
/// for a range on its result.
pub proof fn lemma_fxm_bound(a: int, b: int, aa: int, bb: int)
    requires
        -aa <= a <= aa,
        -bb <= b <= bb,
        aa * bb <= 0x7FFF_FFFF_FFFF_FFFF_0000,
    ensures
        -(aa * bb) <= a * b <= aa * bb,
        -((aa * bb) / 65536) - 1 <= fx_mul_spec(a, b) <= (aa * bb) / 65536,
{
    lemma_mul_abs_bound(a, b, aa, bb);
    lemma_div_abs_bound(a * b, aa * bb, 65536);
}

/// Floor division of a negative number, written through the ceiling of the
/// magnitude: `(-m) / d == -((m + d - 1) / d)`.
pub proof fn lemma_div_neg_is_neg_ceil(m: int, d: int)
    requires
        m > 0,
        d > 0,
    ensures
        (-m) / d == -((m + d - 1) / d),
{
    let q = m / d;
    let r = m % d;
    lemma_fundamental_div_mod(m, d);
    if r == 0 {
        assert(-m == (-q) * d + 0) by (nonlinear_arith)
            requires
                m == d * q + r,
                r == 0,
        ;
        lemma_fundamental_div_mod_converse_div(-m, d, -q, 0);
        assert(m + d - 1 == q * d + (d - 1)) by (nonlinear_arith)
            requires
                m == d * q + r,
                r == 0,
        ;
        lemma_fundamental_div_mod_converse_div(m + d - 1, d, q, d - 1);
    } else {
        assert(-m == (-(q + 1)) * d + (d - r)) by (nonlinear_arith)
            requires
                m == d * q + r,
        ;
        lemma_fundamental_div_mod_converse_div(-m, d, -(q + 1), d - r);
        assert(m + d - 1 == (q + 1) * d + (r - 1)) by (nonlinear_arith)
            requires
                m == d * q + r,
        ;
        lemma_fundamental_div_mod_converse_div(m + d - 1, d, q + 1, r - 1);
    }
}

/// Lower bound for a floor quotient, from a lower bound on the numerator
/// alone.
pub proof fn lemma_div_lower_bound(x: int, p: int, d: int)
    requires
        -p <= x,
        0 <= p,
        1 <= d,
    ensures
        x / d >= -(p / d) - 1,
{
    lemma_div_is_ordered(-p, x, d);
    if p == 0 {
        lemma_div_of0(d);
    } else {
        lemma_div_neg_is_neg_ceil(p, d);
        lemma_div_is_ordered(p + d - 1, p + d, d);
        lemma_div_plus_one(p, d);
    }
}

/// Magnitude bound for a floor quotient, from a magnitude bound on the
/// numerator and a positive denominator.
pub proof fn lemma_div_abs_bound(x: int, m: int, d: int)
    requires
        -m <= x <= m,
        1 <= d,
    ensures
        -(m / d) - 1 <= x / d <= m / d,
{
    lemma_div_is_ordered(x, m, d);
    if m == 0 {
        lemma_div_of0(d);
    } else {
        lemma_div_is_ordered(-m, x, d);
        lemma_div_neg_is_neg_ceil(m, d);
        lemma_div_is_ordered(m + d - 1, m + d, d);
        lemma_div_plus_one(m, d);
    }
}

/// Floor division on `i128`, computed through unsigned magnitudes.
pub fn div_floor_i128(x: i128, d: i128) -> (q: i128)
    requires
        d > 0,
        x != i128::MIN,
    ensures
        q == x as int / d as int,
{
    if x >= 0 {
        let q = (x as u128) / (d as u128);
        proof {
            lemma_div_nonincreasing(x as int, d as int);
            lemma_div_pos_is_pos(x as int, d as int);
        }
        q as i128
    } else {
        let m = (-x) as u128;
        let dd = d as u128;
        let mq = (m + (dd - 1)) / dd;
        proof {
            lemma_div_neg_is_neg_ceil(m as int, d as int);
            lemma_div_pos_is_pos((m + (dd - 1)) as int, dd as int);
            assert(m + (dd - 1) <= m * dd) by (nonlinear_arith)
                requires
                    1 <= m,
                    1 <= dd,
            ;
            lemma_div_is_ordered((m + (dd - 1)) as int, (m * dd) as int, dd as int);
            lemma_div_multiples_vanish(m as int, dd as int);
            lemma_mul_is_commutative(m as int, dd as int);
            assert(mq <= m);
        }
        -(mq as i128)
    }
}

/// Fixed-point multiplication. The requirement keeps the scaled product
/// within `i64`.
pub fn fx_mul(a: i64, b: i64) -> (r: i64)
    requires
        -0x8000_0000_0000_0000_0000 <= a * b <= 0x7FFF_FFFF_FFFF_FFFF_0000,
    ensures
        r == fx_mul_spec(a as int, b as int),
{
    let p: i128 = (a as i128) * (b as i128);
    let q = div_floor_i128(p, 65536);
    proof {
        lemma_div_is_ordered(p as int, 0x7FFF_FFFF_FFFF_FFFF_0000, 65536);
        lemma_div_is_ordered(-0x8000_0000_0000_0000_0000, p as int, 65536);
        lemma_div_multiples_vanish(0x7FFF_FFFF_FFFF_FFFF, 65536);
        lemma_div_multiples_vanish(-0x8000_0000_0000_0000, 65536);
    }
    q as i64
}

/// Fixed-point division by a positive scalar. The requirement keeps the
/// scaled quotient within `i64`.
pub fn fx_div(a: i64, b: i64) -> (r: i64)
    requires
        b >= 1,
        i64::MIN * b <= a * 65536 <= i64::MAX * b,
    ensures
        r == fx_div_spec(a as int, b as int),
{
    let num: i128 = (a as i128) * 65536;
    let q = div_floor_i128(num, b as i128);
    proof {
        lemma_div_is_ordered(num as int, i64::MAX * b, b as int);
        lemma_div_is_ordered(i64::MIN * b, num as int, b as int);
        lemma_div_multiples_vanish(i64::MAX as int, b as int);
        lemma_div_multiples_vanish(i64::MIN as int, b as int);
        lemma_mul_is_commutative(i64::MAX as int, b as int);
        lemma_mul_is_commutative(i64::MIN as int, b as int);
    }
    q as i64
}

/// Fixed-point division by a positive scalar, reporting a quotient that
/// does not fit in `i64` instead of requiring it to.
pub fn fx_div_opt(a: i64, b: i64) -> (r: Option<i64>)
    requires
        b >= 1,
    ensures
        match r {
            Some(q) => q == fx_div_spec(a as int, b as int),
            None => fx_div_spec(a as int, b as int) < i64::MIN || fx_div_spec(
                a as int,
                b as int,
            ) > i64::MAX,
        },
{
    let num: i128 = (a as i128) * 65536;
    let q = div_floor_i128(num, b as i128);
    if i64::MIN as i128 <= q && q <= i64::MAX as i128 {
        Some(q as i64)
    } else {
        None
    }
}

/// Floor division on `i64`.
pub fn div_floor_i64(a: i64, b: i64) -> (q: i64)
    requires
        b >= 1,
        a != i64::MIN,
    ensures
        q == a as int / b as int,
{
    let q = div_floor_i128(a as i128, b as i128);
    proof {
        lemma_div_abs_bound(a as int, i64::MAX as int, b as int);
    }
    q as i64
}

/// Floor division of a nonnegative scalar by a positive one.
pub fn div_floor_nn(a: i64, b: i64) -> (q: i64)
    requires
        0 <= a,
        1 <= b,
    ensures
        q == a as int / b as int,
{
    proof {
        lemma_div_nonincreasing(a as int, b as int);
        lemma_div_pos_is_pos(a as int, b as int);
    }
    ((a as u64) / (b as u64)) as i64
}

/// Integer square root on `u128` by binary search.
pub fn isqrt_u128(x: u128) -> (r: u128)
    requires
        x < 0x4000_0000_0000_0000_0000_0000_0000_0000,
    ensures
        is_sqrt_floor(x as int, r as int),
        r < 0x8000_0000_0000_0000,
{
    let mut lo: u128 = 0;
    let mut hi: u128 = 0x8000_0000_0000_0000;
    assert(x < hi * hi) by (nonlinear_arith)
        requires
            x < 0x4000_0000_0000_0000_0000_0000_0000_0000,
            hi == 0x8000_0000_0000_0000,
    ;
    while hi - lo > 1
        invariant
            lo < hi,
            hi <= 0x8000_0000_0000_0000,
            lo * lo <= x,
            x < hi * hi,
        decreases hi - lo,
    {
        let mid = lo + (hi - lo) / 2;
        assert(lo < mid < hi);
        proof {
            lemma_mul_abs_bound(
                mid as int,
                mid as int,
                0x8000_0000_0000_0000,
                0x8000_0000_0000_0000,
            );
        }
        if mid * mid <= x {
            lo = mid;
        } else {
            hi = mid;
        }
    }
    assert(hi == lo + 1);
    lo
}

/// The square root of a nonnegative fixed-point scalar, as a fixed-point
/// scalar rounded down.
pub fn fx_sqrt(a: i64) -> (r: i64)
    requires
        0 <= a,
    ensures
        r == fx_sqrt_spec(a as int),
        is_sqrt_floor(a * FX_ONE, r as int),
        0 <= r < 0x100_0000_0000,
{
    let x: u128 = (a as u128) * 65536;
    let s = isqrt_u128(x);
    proof {
        lemma_sqrt_floor_unique(x as int, s as int);
        assert(s < 0x100_0000_0000) by (nonlinear_arith)
            requires
                s * s <= x,
                0 <= s,
                x < 0x8000_0000_0000_0000_0000,
        ;
    }
    s as i64
}

} // verus!
