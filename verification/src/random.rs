//! The crate's only sources of randomness, drawn from the `rand` crate.
//!
//! Nothing can be promised about which value comes back, so every
//! caller's contract states what holds of every possible outcome.

use vstd::prelude::*;

verus! {

/// Relies on rand::random::<u16>: a uniform 16-bit value. Read as a
/// fixed-point scalar it is a uniform draw from `[0, 1)` with
/// granularity `1 / 65536`.
#[verifier::external_body]
pub fn random_double() -> (r: i64)
    ensures
        0 <= r < 65536,
{
    rand::random::<u16>() as i64
}

/// Relies on rand::Rng::gen_range on a half-open `usize` range: a value
/// in `[lo, hi)`; the function panics only on an empty range, which the
/// precondition rules out.
#[verifier::external_body]
pub fn random_index(lo: usize, hi: usize) -> (r: usize)
    requires
        lo < hi,
    ensures
        lo <= r < hi,
{
    rand::Rng::gen_range(&mut rand::thread_rng(), lo..hi)
}

/// A uniform fixed-point draw from `[min, max)` at the granularity the
/// scale affords: `min + (max - min) * u` for a fresh `u` from `[0, 1)`.
pub fn random_double_range(min: i64, max: i64) -> (r: i64)
    requires
        -0x1_0000_0000_0000 <= min <= max <= 0x1_0000_0000_0000,
    ensures
        min <= r <= max,
{
    let u = random_double();
    proof {
        let df = max - min as int;
        let p = df * (u as int);
        assert(0 <= p <= df * 65536) by (nonlinear_arith)
            requires
                0 <= u < 65536,
                df >= 0,
                p == df * (u as int),
        ;
        assert((df * 65536) / 65536 == df) by {
            vstd::arithmetic::div_mod::lemma_fundamental_div_mod_converse(
                df * 65536,
                65536,
                df,
                0,
            );
        }
        vstd::arithmetic::div_mod::lemma_div_is_ordered(0, p, 65536);
        vstd::arithmetic::div_mod::lemma_div_is_ordered(p, df * 65536, 65536);
        assert(0int / 65536 == 0);
    }
    let step = crate::fixed::mul_fx(max - min, u);
    min + step
}

/// A point strictly inside the unit sphere, by bounded rejection
/// sampling; after a fixed number of misses a point well inside is
/// used instead.
pub fn random_in_unit_sphere() -> (r: crate::vec3::Vec3)
    ensures
        r.bounded(65536),
        crate::vec3::sdot(r, r) < 65536,
{
    let mut k: usize = 0;
    while k < 64
        invariant
            k <= 64,
        decreases 64 - k,
    {
        let v = crate::vec3::Vec3 {
            x: random_double_range(-65536, 65536),
            y: random_double_range(-65536, 65536),
            z: random_double_range(-65536, 65536),
        };
        if v.squared_length() < 65536 {
            return v;
        }
        k = k + 1;
    }
    crate::vec3::Vec3 { x: 0, y: 0, z: 32768 }
}

/// A point strictly inside the unit disk of the `x`-`y` plane.
pub fn random_in_unit_disk() -> (r: crate::vec3::Vec3)
    ensures
        r.bounded(65536),
        r.z == 0,
        crate::vec3::sdot(r, r) < 65536,
{
    let mut k: usize = 0;
    while k < 64
        invariant
            k <= 64,
        decreases 64 - k,
    {
        let v = crate::vec3::Vec3 {
            x: random_double_range(-65536, 65536),
            y: random_double_range(-65536, 65536),
            z: 0,
        };
        if v.squared_length() < 65536 {
            return v;
        }
        k = k + 1;
    }
    crate::vec3::Vec3 { x: 0, y: 32768, z: 0 }
}

/// A cosine-weighted direction about the vertical axis of a local
/// frame: the vertical component is always positive.
pub fn random_cosine_direction() -> (r: crate::vec3::Vec3)
    ensures
        r.bounded(65536),
        256 <= r.z <= 65536,
{
    let r1 = random_double();
    let r2 = random_double();
    let z64 = crate::fixed::isqrt_u128(((65536 - r2) as u128) * 65536);
    proof {
        crate::fixed::lemma_sqrt_floor_props(((65536 - r2) as int) * 65536);
        assert(crate::fixed::sqrt_floor(((65536 - r2) as int) * 65536) <= 65536) by (nonlinear_arith)
            requires
                crate::fixed::sqrt_floor(((65536 - r2) as int) * 65536) >= 0,
                crate::fixed::sqrt_floor(((65536 - r2) as int) * 65536) * crate::fixed::sqrt_floor(
                    ((65536 - r2) as int) * 65536,
                ) <= ((65536 - r2) as int) * 65536,
                ((65536 - r2) as int) * 65536 <= 65536 * 65536,
        ;
        assert(crate::fixed::sqrt_floor(((65536 - r2) as int) * 65536) >= 256) by (nonlinear_arith)
            requires
                ((65536 - r2) as int) * 65536 < (crate::fixed::sqrt_floor(
                    ((65536 - r2) as int) * 65536,
                ) + 1) * (crate::fixed::sqrt_floor(((65536 - r2) as int) * 65536) + 1),
                ((65536 - r2) as int) * 65536 >= 65536,
                crate::fixed::sqrt_floor(((65536 - r2) as int) * 65536) >= 0,
        ;
    }
    let z = z64 as i64;
    let phi = crate::fixed::mul_fx(411775, r1);
    proof {
        crate::vec3::lemma_fmul_fits(411775, r1 as int, 411775, 65536);
        vstd::arithmetic::div_mod::lemma_div_is_ordered(0, 411775 * (r1 as int), 65536);
        assert(411775 * (r1 as int) >= 0) by (nonlinear_arith)
            requires
                r1 >= 0,
        ;
        assert(0int / 65536 == 0);
        crate::fixed::lemma_sqrt_floor_props((r2 as int) * 65536);
        assert(crate::fixed::sqrt_floor((r2 as int) * 65536) <= 65536) by (nonlinear_arith)
            requires
                crate::fixed::sqrt_floor((r2 as int) * 65536) >= 0,
                crate::fixed::sqrt_floor((r2 as int) * 65536) * crate::fixed::sqrt_floor(
                    (r2 as int) * 65536,
                ) <= (r2 as int) * 65536,
                (r2 as int) * 65536 <= 65536 * 65536,
        ;
    }
    let sa64 = crate::fixed::isqrt_u128(((r2 as u128)) * 65536);
    let sa = sa64 as i64;
    let cp = crate::trig::fx_cos(phi);
    let sp = crate::trig::fx_sin(phi);
    proof {
        crate::fixed::lemma_fmul_unit_range(cp as int, sa as int);
        crate::fixed::lemma_fmul_unit_range(sp as int, sa as int);
    }
    let x = crate::fixed::mul_fx(cp, sa);
    let y = crate::fixed::mul_fx(sp, sa);
    crate::vec3::Vec3 { x, y, z }
}

} // verus!
