//! Fixed-point scalar arithmetic.
//!
//! Every coordinate, colour channel and ray parameter in this crate is an
//! `i64` holding a real number scaled by [`ONE`]: the value `x` stands for
//! the real number `x / 65536`. All rounding is toward negative infinity,
//! and each operation's contract pins down exactly which integer it
//! returns, so the geometric layers above can reason about the very
//! numbers the code computes.

use vstd::arithmetic::div_mod::lemma_fundamental_div_mod;
use vstd::arithmetic::div_mod::lemma_fundamental_div_mod_converse;
use vstd::prelude::*;

verus! {

/// One in the fixed-point scale: an `i64` value `x` stands for `x / ONE`.
pub const ONE: i64 = 65536;

/// Floor division on unbounded integers; the divisor may be negative but
/// not zero. Ghost `/` is Euclidean division, which agrees with floor
/// division exactly when the divisor is positive, so the negative case
/// flips both signs first.
pub open spec fn floor_div(n: int, d: int) -> int {
    if d > 0 {
        n / d
    } else {
        (-n) / (-d)
    }
}

/// The fixed-point product of `a` and `b`, rounded toward negative infinity.
pub open spec fn fmul(a: int, b: int) -> int {
    (a * b) / 65536
}

/// The fixed-point quotient of `a` by `b`, rounded toward negative infinity.
pub open spec fn fdiv(a: int, b: int) -> int {
    floor_div(a * 65536, b)
}

/// The greatest integer whose square does not exceed `n` (for `n >= 0`).
pub open spec fn sqrt_floor(n: int) -> int {
    choose|r: int| r >= 0 && #[trigger] (r * r) <= n && n < (r + 1) * (r + 1)
}

/// For every `n >= 0` exactly one integer satisfies the square-root
/// bounds, so `sqrt_floor` picks it.
pub proof fn lemma_sqrt_floor_unique(n: int, r: int)
    requires
        n >= 0,
        r >= 0,
        r * r <= n,
        n < (r + 1) * (r + 1),
    ensures
        sqrt_floor(n) == r,
{
    assert(exists|q: int| q >= 0 && #[trigger] (q * q) <= n && n < (q + 1) * (q + 1));
    let q = sqrt_floor(n);
    assert(q >= 0 && q * q <= n && n < (q + 1) * (q + 1));
    assert(q == r) by (nonlinear_arith)
        requires
            q >= 0,
            r >= 0,
            q * q <= n,
            n < (q + 1) * (q + 1),
            r * r <= n,
            n < (r + 1) * (r + 1),
    ;
}

/// Every `n >= 0` has an integer square root, so `sqrt_floor(n)`
/// satisfies its defining bounds.
pub proof fn lemma_sqrt_floor_props(n: int)
    requires
        n >= 0,
    ensures
        sqrt_floor(n) >= 0,
        sqrt_floor(n) * sqrt_floor(n) <= n,
        n < (sqrt_floor(n) + 1) * (sqrt_floor(n) + 1),
    decreases n,
{
    if n == 0 {
        assert(0 * 0 <= 0 && 0 < (0 + 1) * (0 + 1)) by (nonlinear_arith);
        assert(exists|q: int| q >= 0 && #[trigger] (q * q) <= n && n < (q + 1) * (q + 1));
    } else {
        lemma_sqrt_floor_props(n - 1);
        let r = sqrt_floor(n - 1);
        if n < (r + 1) * (r + 1) {
            assert(r >= 0 && r * r <= n && n < (r + 1) * (r + 1));
            assert(exists|q: int| q >= 0 && #[trigger] (q * q) <= n && n < (q + 1) * (q + 1));
        } else {
            assert(n == (r + 1) * (r + 1));
            assert((r + 1) * (r + 1) < (r + 2) * (r + 2)) by (nonlinear_arith)
                requires
                    r >= 0,
            ;
            assert(r + 1 >= 0 && (r + 1) * (r + 1) <= n && n < (r + 2) * (r + 2));
            assert(exists|q: int| q >= 0 && #[trigger] (q * q) <= n && n < (q + 1) * (q + 1));
        }
    }
    let w = choose|q: int| q >= 0 && #[trigger] (q * q) <= n && n < (q + 1) * (q + 1);
    lemma_sqrt_floor_unique(n, w);
}

/// Floor division of one `i128` by another, carried out on magnitudes so
/// that executable division is only ever applied to unsigned values.
pub fn floor_div_i128(n: i128, d: i128) -> (r: i128)
    requires
        d != 0,
        n > i128::MIN,
        d > i128::MIN,
    ensures
        r as int == floor_div(n as int, d as int),
{
    let neg: bool = (n < 0) != (d < 0);
    let na: u128 = if n < 0 {
        (-n) as u128
    } else {
        n as u128
    };
    let da: u128 = if d < 0 {
        (-d) as u128
    } else {
        d as u128
    };
    let q: u128 = na / da;
    let rem: u128 = na % da;
    proof {
        lemma_fundamental_div_mod(na as int, da as int);
    }
    proof {
        assert(q as int <= na as int) by (nonlinear_arith)
            requires
                da as int >= 1,
                na as int >= 0,
                na as int == (da as int) * (q as int) + (rem as int),
                rem as int >= 0,
                q as int >= 0,
        ;
    }
    if neg {
        if rem == 0 {
            proof {
                assert(-(na as int) == (-(q as int)) * (da as int) + 0) by (nonlinear_arith)
                    requires
                        na as int == (da as int) * (q as int) + (rem as int),
                        rem as int == 0,
                ;
                lemma_fundamental_div_mod_converse(-(na as int), da as int, -(q as int), 0);
            }
            -(q as i128)
        } else {
            proof {
                assert(-(na as int) == (-(q as int) - 1) * (da as int) + (da as int - rem as int))
                    by (nonlinear_arith)
                    requires
                        na as int == (da as int) * (q as int) + (rem as int),
                ;
                lemma_fundamental_div_mod_converse(
                    -(na as int),
                    da as int,
                    -(q as int) - 1,
                    da as int - rem as int,
                );
            }
            -(q as i128) - 1
        }
    } else {
        q as i128
    }
}

/// The fixed-point product of two scalars.
pub fn mul_fx(a: i64, b: i64) -> (r: i64)
    requires
        i64::MIN <= fmul(a as int, b as int) <= i64::MAX,
    ensures
        r as int == fmul(a as int, b as int),
{
    let p: i128 = (a as i128) * (b as i128);
    let q = floor_div_i128(p, 65536);
    q as i64
}

/// The fixed-point quotient of two scalars.
pub fn div_fx(a: i64, b: i64) -> (r: i64)
    requires
        b != 0,
        i64::MIN <= fdiv(a as int, b as int) <= i64::MAX,
    ensures
        r as int == fdiv(a as int, b as int),
{
    let p: i128 = (a as i128) * 65536;
    let q = floor_div_i128(p, b as i128);
    q as i64
}

/// Integer square root by binary search: the greatest `r` with
/// `r * r <= n`.
pub fn isqrt_u128(n: u128) -> (r: u64)
    ensures
        r as int == sqrt_floor(n as int),
        (r as int) * (r as int) <= n as int,
        (n as int) < (r as int + 1) * (r as int + 1),
{
    let mut lo: u64 = 0;
    let mut hi: u64 = u64::MAX;
    proof {
        assert((hi as int + 1) * (hi as int + 1) > n as int) by (nonlinear_arith)
            requires
                hi as int + 1 == 0x1_0000_0000_0000_0000,
                (n as int) < 0x1_0000_0000_0000_0000_0000_0000_0000_0000,
        ;
    }
    while lo < hi
        invariant
            lo <= hi,
            (lo as int) * (lo as int) <= n as int,
            (n as int) < (hi as int + 1) * (hi as int + 1),
        decreases hi - lo,
    {
        let mid: u64 = lo + (hi - lo) / 2 + 1;
        proof {
            assert((mid as int) * (mid as int) < 0x1_0000_0000_0000_0000_0000_0000_0000_0000)
                by (nonlinear_arith)
                requires
                    0 <= mid as int,
                    (mid as int) < 0x1_0000_0000_0000_0000,
            ;
        }
        let sq: u128 = (mid as u128) * (mid as u128);
        if sq <= n {
            lo = mid;
        } else {
            hi = mid - 1;
        }
    }
    proof {
        lemma_sqrt_floor_unique(n as int, lo as int);
    }
    lo
}

/// `x` forced into the representable `i64` range.
pub open spec fn clamp64(x: int) -> int {
    if x < i64::MIN as int {
        i64::MIN as int
    } else if x > i64::MAX as int {
        i64::MAX as int
    } else {
        x
    }
}

/// The fixed-point product, saturating at the ends of the `i64` range.
pub fn mul_fx_clamp(a: i64, b: i64) -> (r: i64)
    ensures
        r as int == clamp64(fmul(a as int, b as int)),
{
    proof {
        assert(-0x4000_0000_0000_0000_0000_0000_0000_0000 <= (a as int) * (b as int)
            <= 0x4000_0000_0000_0000_0000_0000_0000_0000) by (nonlinear_arith)
            requires
                -0x8000_0000_0000_0000 <= a as int <= 0x7FFF_FFFF_FFFF_FFFF,
                -0x8000_0000_0000_0000 <= b as int <= 0x7FFF_FFFF_FFFF_FFFF,
        ;
    }
    let p: i128 = (a as i128) * (b as i128);
    let q = floor_div_i128(p, 65536);
    if q > i64::MAX as i128 {
        i64::MAX
    } else if q < i64::MIN as i128 {
        i64::MIN
    } else {
        q as i64
    }
}

/// The fixed-point quotient, saturating at the ends of the `i64` range.
pub fn div_fx_clamp(a: i64, b: i64) -> (r: i64)
    requires
        b != 0,
    ensures
        r as int == clamp64(fdiv(a as int, b as int)),
{
    let p: i128 = (a as i128) * 65536;
    let q = floor_div_i128(p, b as i128);
    if q > i64::MAX as i128 {
        i64::MAX
    } else if q < i64::MIN as i128 {
        i64::MIN
    } else {
        q as i64
    }
}

/// Floor division's defining property: subtracting the quotient times
/// the divisor leaves a remainder strictly smaller than the divisor, on
/// the divisor's side of zero.
pub proof fn lemma_floor_div_rem(n: int, d: int)
    requires
        d != 0,
    ensures
        d > 0 ==> 0 <= n - floor_div(n, d) * d < d,
        d < 0 ==> d < n - floor_div(n, d) * d <= 0,
{
    if d > 0 {
        lemma_fundamental_div_mod(n, d);
        vstd::arithmetic::div_mod::lemma_mod_bound(n, d);
        assert(d * (n / d) == (n / d) * d) by (nonlinear_arith);
    } else {
        lemma_fundamental_div_mod(-n, -d);
        vstd::arithmetic::div_mod::lemma_mod_bound(-n, -d);
        let q = (-n) / (-d);
        assert((-d) * q == -(q * d)) by (nonlinear_arith);
    }
}

/// Floor division by a positive divisor never rounds below `-(m/d) - 1`
/// when the dividend is at least `-m`, and never above `m/d` when it is
/// at most `m`.
pub proof fn lemma_floor_div_bounds(n: int, m: int, d: int)
    requires
        d > 0,
        m >= 0,
        -m <= n <= m,
    ensures
        -(m / d) - 1 <= n / d <= m / d,
{
    vstd::arithmetic::div_mod::lemma_div_is_ordered(n, m, d);
    vstd::arithmetic::div_mod::lemma_div_is_ordered(-m, n, d);
    lemma_fundamental_div_mod(m, d);
    let q = m / d;
    let r = m % d;
    if r == 0 {
        assert(-m == (-q) * d + 0) by (nonlinear_arith)
            requires
                m == d * q + r,
                r == 0,
        ;
        lemma_fundamental_div_mod_converse(-m, d, -q, 0);
    } else {
        assert(-m == (-q - 1) * d + (d - r)) by (nonlinear_arith)
            requires
                m == d * q + r,
        ;
        lemma_fundamental_div_mod_converse(-m, d, -q - 1, d - r);
    }
}

/// A fixed-point quotient whose dividend is no larger in magnitude than
/// its positive divisor lies in the closed unit interval.
pub proof fn lemma_fdiv_unit(a: int, b: int)
    requires
        b > 0,
        -b <= a <= b,
    ensures
        -65536 <= fdiv(a, b) <= 65536,
{
    assert(-(b * 65536) <= a * 65536 <= b * 65536) by (nonlinear_arith)
        requires
            -b <= a <= b,
            b > 0,
    ;
    assert((b * 65536) / b == 65536) by {
        assert(b * 65536 == 65536 * b + 0) by (nonlinear_arith);
        lemma_fundamental_div_mod_converse(b * 65536, b, 65536, 0);
    }
    assert((-(b * 65536)) / b == -65536) by {
        assert(-(b * 65536) == (-65536) * b + 0) by (nonlinear_arith);
        lemma_fundamental_div_mod_converse(-(b * 65536), b, -65536, 0);
    }
    vstd::arithmetic::div_mod::lemma_div_is_ordered(a * 65536, b * 65536, b);
    vstd::arithmetic::div_mod::lemma_div_is_ordered(-(b * 65536), a * 65536, b);
    assert(fdiv(a, b) == (a * 65536) / b);
}

/// If `0 <= n < d * b` then `n / d < b`.
pub proof fn lemma_div_below(n: int, d: int, b: int)
    requires
        d > 0,
        0 <= n,
        n < d * b,
    ensures
        n / d < b,
{
    lemma_fundamental_div_mod(n, d);
    if n / d >= b {
        assert(d * (n / d) >= d * b) by (nonlinear_arith)
            requires
                d > 0,
                n / d >= b,
        ;
        assert(n % d >= 0) by {
            vstd::arithmetic::div_mod::lemma_mod_bound(n, d);
        }
    }
}

/// Floor division by any nonzero divisor keeps the magnitude within the
/// dividend's bound.
pub proof fn lemma_floor_div_small(n: int, d: int, m: int)
    requires
        d != 0,
        0 <= m,
        -m <= n <= m,
    ensures
        -m - 1 <= floor_div(n, d) <= m,
{
    let dd = if d > 0 {
        d
    } else {
        -d
    };
    let nn = if d > 0 {
        n
    } else {
        -n
    };
    lemma_floor_div_bounds(nn, m, dd);
    lemma_fundamental_div_mod_converse(m, 1, m, 0);
    vstd::arithmetic::div_mod::lemma_div_is_ordered_by_denominator(m, 1, dd);
}

/// A fixed-point quotient whose dividend exceeds its positive divisor
/// by less than one scale part still lies in `[0, ONE]`.
pub proof fn lemma_fdiv_unit_slack(a: int, b: int)
    requires
        b > 0,
        0 <= a,
        (a - b) * 65536 < b,
    ensures
        0 <= fdiv(a, b) <= 65536,
{
    assert(a * 65536 < b * 65537) by (nonlinear_arith)
        requires
            (a - b) * 65536 < b,
    ;
    lemma_div_below(a * 65536, b, 65537);
    lemma_fundamental_div_mod_converse(0, b, 0, 0);
    vstd::arithmetic::div_mod::lemma_div_is_ordered(0, a * 65536, b);
}

/// A fixed-point quotient of a value between zero and its positive
/// divisor lies in `[0, ONE]`.
pub proof fn lemma_fdiv_unit_nonneg(a: int, b: int)
    requires
        b > 0,
        0 <= a <= b,
    ensures
        0 <= fdiv(a, b) <= 65536,
{
    lemma_fdiv_unit(a, b);
    lemma_fundamental_div_mod_converse(0, b, 0, 0);
    vstd::arithmetic::div_mod::lemma_div_is_ordered(0, a * 65536, b);
}

/// A fixed-point product of a unit-bounded factor and a nonnegative
/// unit-bounded factor stays in the closed unit interval.
pub proof fn lemma_fmul_unit_range(a: int, b: int)
    requires
        -65536 <= a <= 65536,
        0 <= b <= 65536,
    ensures
        -65536 <= fmul(a, b) <= 65536,
{
    assert(-(65536 * 65536) <= a * b <= 65536 * 65536) by (nonlinear_arith)
        requires
            -65536 <= a <= 65536,
            0 <= b <= 65536,
    ;
    assert((-(65536int * 65536)) / 65536 == -65536) by {
        lemma_fundamental_div_mod_converse(-(65536int * 65536), 65536, -65536, 0);
    }
    assert((65536int * 65536) / 65536 == 65536) by {
        lemma_fundamental_div_mod_converse(65536int * 65536, 65536, 65536, 0);
    }
    vstd::arithmetic::div_mod::lemma_div_is_ordered(-(65536int * 65536), a * b, 65536);
    vstd::arithmetic::div_mod::lemma_div_is_ordered(a * b, 65536int * 65536, 65536);
}

/// The fixed-point square of a unit-bounded value stays in `[0, ONE]`.
pub proof fn lemma_fmul_sq_range(c: int)
    requires
        -65536 <= c <= 65536,
    ensures
        0 <= fmul(c, c) <= 65536,
{
    assert(0 <= c * c <= 65536 * 65536) by (nonlinear_arith)
        requires
            -65536 <= c <= 65536,
    ;
    assert((65536int * 65536) / 65536 == 65536) by {
        lemma_fundamental_div_mod_converse(65536int * 65536, 65536, 65536, 0);
    }
    vstd::arithmetic::div_mod::lemma_div_is_ordered(0, c * c, 65536);
    vstd::arithmetic::div_mod::lemma_div_is_ordered(c * c, 65536int * 65536, 65536);
    assert(0int / 65536 == 0);
}

/// The smaller of two scalars.
pub fn ffmin(a: i64, b: i64) -> (r: i64)
    ensures
        r == if a < b {
            a
        } else {
            b
        },
{
    if a < b {
        a
    } else {
        b
    }
}

/// The larger of two scalars.
pub fn ffmax(a: i64, b: i64) -> (r: i64)
    ensures
        r == if a > b {
            a
        } else {
            b
        },
{
    if a > b {
        a
    } else {
        b
    }
}

} // verus!
