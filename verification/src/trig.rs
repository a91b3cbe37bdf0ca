//! Fixed-point circular functions.
//!
//! The scale admits no exact sine or arctangent, so these are polynomial
//! approximations (Bhaskara's sine, a quadratic arctangent); each
//! contract pins down the exact integer returned and the range it lies
//! in, and the texture and sampling layers above state their results
//! through these functions.

use crate::fixed::fdiv;
use crate::fixed::floor_div;
use crate::fixed::fmul;
use crate::fixed::lemma_floor_div_bounds;
use crate::fixed::lemma_sqrt_floor_props;
use crate::fixed::sqrt_floor;
use crate::vec3::lemma_fmul_fits;
use vstd::arithmetic::div_mod::lemma_div_is_ordered;
use vstd::arithmetic::div_mod::lemma_fundamental_div_mod;
use vstd::prelude::*;

verus! {

/// Half a turn, at the fixed scale.
pub const PI_FX: i64 = 205887;

/// A full turn.
pub const TWO_PI_FX: i64 = 411775;

/// A quarter turn.
pub const HALF_PI_FX: i64 = 102944;

/// Bhaskara's rational approximation of the sine on `[0, pi]`.
pub open spec fn sbhaskara(u: int) -> int {
    let a = fmul(u, 205887 - u);
    fdiv(16 * a, 5 * fmul(205887, 205887) - 4 * a)
}

/// The sine approximation on the whole line: reduce modulo a full turn,
/// then apply Bhaskara's formula on each half turn.
pub open spec fn ssin(x: int) -> int {
    let r = x - 411775 * floor_div(x, 411775);
    if r <= 205887 {
        sbhaskara(r)
    } else {
        -sbhaskara(r - 205887)
    }
}

/// The cosine, as the sine a quarter turn later.
pub open spec fn scos(x: int) -> int {
    ssin(x + 102944)
}

/// A quadratic arctangent approximation on `[0, 1]`.
pub open spec fn satan(z: int) -> int {
    fmul(z, 51472 + fmul(17892, 65536 - z))
}

/// The two-argument arctangent built from `satan` by octant reduction.
pub open spec fn satan2(y: int, x: int) -> int {
    if x == 0 && y == 0 {
        0
    } else {
        let ax = if x < 0 {
            -x
        } else {
            x
        };
        let ay = if y < 0 {
            -y
        } else {
            y
        };
        let base = if ay <= ax {
            satan(fdiv(ay, ax))
        } else {
            102944 - satan(fdiv(ax, ay))
        };
        if x >= 0 && y >= 0 {
            base
        } else if x < 0 && y >= 0 {
            205887 - base
        } else if x < 0 {
            -(205887 - base)
        } else {
            -base
        }
    }
}

/// The arcsine of `s` in `[-1, 1]`, via the arctangent of
/// `s / sqrt(1 - s^2)`.
pub open spec fn sasin(s: int) -> int {
    satan2(s, sqrt_floor(65536 * 65536 - s * s))
}

/// Bhaskara's formula on `[0, pi]`: exactly `sbhaskara`, and always in
/// the closed fixed-point unit interval.
fn bhaskara_half(u: i64) -> (r: i64)
    requires
        0 <= u <= 205887,
    ensures
        r as int == sbhaskara(u as int),
        0 <= r <= 65536,
{
    proof {
        assert(4 * ((u as int) * (205887 - u as int)) <= 42389456769) by (nonlinear_arith)
            requires
                0 <= u as int <= 205887,
        ;
        assert((u as int) * (205887 - u as int) >= 0) by (nonlinear_arith)
            requires
                0 <= u as int <= 205887,
        ;
        lemma_fundamental_div_mod((u as int) * (205887 - u as int), 65536);
        vstd::arithmetic::div_mod::lemma_mod_bound((u as int) * (205887 - u as int), 65536);
        lemma_div_is_ordered(0, (u as int) * (205887 - u as int), 65536);
        lemma_div_is_ordered((u as int) * (205887 - u as int), 10597364193, 65536);
    }
    let a = crate::fixed::mul_fx(u, 205887 - u);
    let p2 = crate::fixed::mul_fx(205887, 205887);
    let den = 5 * p2 - 4 * a;
    proof {
        // 65536 a <= u (pi - u) and 4 u (pi - u) <= pi^2 < 65536 (p2 + 1),
        // so 4 a <= p2; the denominator stays at least 4 p2 and the
        // quotient cannot exceed one.
        lemma_fundamental_div_mod(42389456769, 65536);
        vstd::arithmetic::div_mod::lemma_mod_bound(42389456769, 65536);
        assert(4 * (a as int) <= p2 as int);
        assert(16 * (a as int) * 65536 <= (den as int) * 65536) by (nonlinear_arith)
            requires
                16 * (a as int) <= den as int,
        ;
        assert((den as int) * 65536 < (den as int) * 65537) by (nonlinear_arith)
            requires
                den as int > 0,
        ;
        crate::fixed::lemma_div_below(16 * (a as int) * 65536, den as int, 65537);
        lemma_div_is_ordered(0, 16 * (a as int) * 65536, den as int);
    }
    crate::fixed::div_fx(16 * a, den)
}

/// The fixed-point sine: exactly `ssin`, always within the closed unit
/// interval.
pub fn fx_sin(x: i64) -> (r: i64)
    requires
        -0x4000_0000_0000 <= x <= 0x4000_0000_0000,
    ensures
        r as int == ssin(x as int),
        -65536 <= r <= 65536,
{
    let q128 = crate::fixed::floor_div_i128(x as i128, 411775);
    proof {
        lemma_fundamental_div_mod(x as int, 411775);
        vstd::arithmetic::div_mod::lemma_mod_bound(x as int, 411775);
        assert(-0x1000_0000 <= q128 as int <= 0x1000_0000) by (nonlinear_arith)
            requires
                411775 * (q128 as int) == x as int - (x as int) % 411775,
                -0x4000_0000_0000 <= x as int <= 0x4000_0000_0000,
                0 <= (x as int) % 411775 < 411775,
        ;
    }
    let q = q128 as i64;
    let r0: i64 = x - q * 411775;
    if r0 <= 205887 {
        bhaskara_half(r0)
    } else {
        let s = bhaskara_half(r0 - 205887);
        -s
    }
}

/// The fixed-point cosine: the sine a quarter turn later.
pub fn fx_cos(x: i64) -> (r: i64)
    requires
        -0x2000_0000_0000 <= x <= 0x2000_0000_0000,
    ensures
        r as int == scos(x as int),
        -65536 <= r <= 65536,
{
    fx_sin(x + 102944)
}

/// The quadratic arctangent on `[0, 1]`: exactly `satan`, within
/// `[0, pi / 3]` comfortably.
fn atan_unit(z: i64) -> (r: i64)
    requires
        0 <= z <= 65536,
    ensures
        r as int == satan(z as int),
        0 <= r <= 69364,
{
    proof {
        lemma_fmul_fits(17892, 65536 - z as int, 17892, 65536);
        lemma_floor_div_bounds(17892 * (65536 - z as int), 17892int * 65536, 65536);
        lemma_div_is_ordered(0, 17892 * (65536 - z as int), 65536);
        assert((17892 * 65536) / 65536 == 17892);
    }
    let inner = 51472 + crate::fixed::mul_fx(17892, 65536 - z);
    proof {
        lemma_fmul_fits(z as int, inner as int, 65536, 69364);
        lemma_div_is_ordered(0, (z as int) * (inner as int), 65536);
        assert((z as int) * (inner as int) >= 0) by (nonlinear_arith)
            requires
                z >= 0,
                inner >= 0,
        ;
        assert((z as int) * (inner as int) <= 65536 * 69364) by (nonlinear_arith)
            requires
                0 <= z as int <= 65536,
                0 <= inner as int <= 69364,
        ;
        crate::fixed::lemma_div_below((z as int) * (inner as int), 65536, 69365);
    }
    crate::fixed::mul_fx(z, inner)
}

/// The two-argument arctangent: exactly `satan2`, within `[-pi, pi]`.
pub fn fx_atan2(y: i64, x: i64) -> (r: i64)
    requires
        -0x1_0000_0000 <= y <= 0x1_0000_0000,
        -0x1_0000_0000 <= x <= 0x1_0000_0000,
    ensures
        r as int == satan2(y as int, x as int),
        -205887 <= r <= 205887,
        x >= 0 ==> -102944 <= r <= 102944,
{
    if x == 0 && y == 0 {
        return 0;
    }
    let ax: i64 = if x < 0 {
        -x
    } else {
        x
    };
    let ay: i64 = if y < 0 {
        -y
    } else {
        y
    };
    let base: i64 = if ay <= ax {
        proof {
            crate::fixed::lemma_fdiv_unit(ay as int, ax as int);
            lemma_div_is_ordered(0, (ay as int) * 65536, ax as int);
        }
        atan_unit(crate::fixed::div_fx(ay, ax))
    } else {
        proof {
            crate::fixed::lemma_fdiv_unit(ax as int, ay as int);
            lemma_div_is_ordered(0, (ax as int) * 65536, ay as int);
        }
        102944 - atan_unit(crate::fixed::div_fx(ax, ay))
    };
    if x >= 0 && y >= 0 {
        base
    } else if x < 0 && y >= 0 {
        205887 - base
    } else if x < 0 {
        -(205887 - base)
    } else {
        -base
    }
}

/// The arcsine on `[-1, 1]`: exactly `sasin`, within `[-pi/2, pi/2]`.
pub fn fx_asin(s: i64) -> (r: i64)
    requires
        -65536 <= s <= 65536,
    ensures
        r as int == sasin(s as int),
        -102944 <= r <= 102944,
{
    proof {
        assert(0 <= (s as int) * (s as int) <= 65536 * 65536) by (nonlinear_arith)
            requires
                -65536 <= s as int <= 65536,
        ;
    }
    let m: i64 = 65536 * 65536 - s * s;
    let c64 = crate::fixed::isqrt_u128(m as u128);
    proof {
        lemma_sqrt_floor_props(m as int);
        assert(sqrt_floor(m as int) <= 65536) by (nonlinear_arith)
            requires
                sqrt_floor(m as int) >= 0,
                sqrt_floor(m as int) * sqrt_floor(m as int) <= m as int,
                m as int <= 65536 * 65536,
        ;
    }
    let c = c64 as i64;
    fx_atan2(s, c)
}

} // verus!
