//! Rays: an origin and a direction, both fixed-point vectors.

use crate::fixed::fmul;
use crate::vec3::lemma_fmul_fits;
use crate::vec3::sv;
use crate::vec3::Vec3;
use vstd::prelude::*;

verus! {

/// The largest ray parameter the crate traces to; it stands in for
/// "no far limit" wherever the interval is unbounded.
pub const TMAX: i64 = 0x100_0000_0000;

#[derive(Clone, Copy, PartialEq, Eq, Structural, Debug)]
pub struct Ray {
    pub origin: Vec3,
    pub direction: Vec3,
}

/// The point `origin + t * direction`, one rounding per component.
pub open spec fn at_of(r: Ray, t: int) -> (int, int, int) {
    (
        r.origin.x + fmul(t, r.direction.x as int),
        r.origin.y + fmul(t, r.direction.y as int),
        r.origin.z + fmul(t, r.direction.z as int),
    )
}

/// A ray whose origin is a scene point and whose direction fits the
/// coordinate bound.
pub open spec fn ray_wf(r: Ray) -> bool {
    r.origin.bounded(0x40_0000_0000) && r.direction.bounded(0x40_0000_0000)
}

impl Ray {
    /// The point the ray reaches at parameter `t`.
    pub fn at(&self, t: i64) -> (p: Vec3)
        requires
            ray_wf(*self),
            -0x100_0000_0000 <= t <= 0x100_0000_0000,
        ensures
            sv(p) == at_of(*self, t as int),
            p.bounded(0x4100_0000_0000_0000),
    {
        proof {
            lemma_fmul_fits(t as int, self.direction.x as int, 0x100_0000_0000, 0x40_0000_0000);
            lemma_fmul_fits(t as int, self.direction.y as int, 0x100_0000_0000, 0x40_0000_0000);
            lemma_fmul_fits(t as int, self.direction.z as int, 0x100_0000_0000, 0x40_0000_0000);
        }
        Vec3 {
            x: self.origin.x + crate::fixed::mul_fx(t, self.direction.x),
            y: self.origin.y + crate::fixed::mul_fx(t, self.direction.y),
            z: self.origin.z + crate::fixed::mul_fx(t, self.direction.z),
        }
    }
}

} // verus!
