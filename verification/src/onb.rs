//! Orthonormal bases: a local frame built from a single normal, used to
//! map sampled directions into world space.

use crate::fixed::fdiv;
use crate::fixed::fmul;
use crate::vec3::norm_of;
use crate::vec3::scross;
use crate::vec3::sv;
use crate::vec3::Vec3;
use vstd::prelude::*;

verus! {

#[derive(Clone, Copy, PartialEq, Eq, Structural, Debug)]
pub struct ONB {
    pub u: Vec3,
    pub v: Vec3,
    pub w: Vec3,
}

/// The basis vectors stay within twice unit scale.
pub open spec fn onb_wf(b: ONB) -> bool {
    b.u.bounded(131080) && b.v.bounded(131080) && b.w.bounded(131080)
}

/// The unit vector along `a`, componentwise.
pub open spec fn sunit(a: Vec3) -> (int, int, int) {
    (
        fdiv(a.x as int, norm_of(a)),
        fdiv(a.y as int, norm_of(a)),
        fdiv(a.z as int, norm_of(a)),
    )
}

impl ONB {
    /// `a u + b v + c w`, one rounding per product.
    pub fn local(&self, a: i64, b: i64, c: i64) -> (r: Vec3)
        requires
            onb_wf(*self),
            -65537 <= a <= 65537,
            -65537 <= b <= 65537,
            -65537 <= c <= 65537,
        ensures
            sv(r) == (
                fmul(self.u.x as int, a as int) + fmul(self.v.x as int, b as int) + fmul(
                    self.w.x as int,
                    c as int,
                ),
                fmul(self.u.y as int, a as int) + fmul(self.v.y as int, b as int) + fmul(
                    self.w.y as int,
                    c as int,
                ),
                fmul(self.u.z as int, a as int) + fmul(self.v.z as int, b as int) + fmul(
                    self.w.z as int,
                    c as int,
                ),
            ),
            r.bounded(393252),
    {
        proof {
            lemma_local_fits(*self, a as int, b as int, c as int);
        }
        Vec3 {
            x: crate::fixed::mul_fx(self.u.x, a) + crate::fixed::mul_fx(self.v.x, b)
                + crate::fixed::mul_fx(self.w.x, c),
            y: crate::fixed::mul_fx(self.u.y, a) + crate::fixed::mul_fx(self.v.y, b)
                + crate::fixed::mul_fx(self.w.y, c),
            z: crate::fixed::mul_fx(self.u.z, a) + crate::fixed::mul_fx(self.v.z, b)
                + crate::fixed::mul_fx(self.w.z, c),
        }
    }

    /// The local combination with the coefficients drawn from `p`.
    pub fn localvec(&self, p: Vec3) -> (r: Vec3)
        requires
            onb_wf(*self),
            p.bounded(65537),
        ensures
            sv(r) == (
                fmul(self.u.x as int, p.x as int) + fmul(self.v.x as int, p.y as int) + fmul(
                    self.w.x as int,
                    p.z as int,
                ),
                fmul(self.u.y as int, p.x as int) + fmul(self.v.y as int, p.y as int) + fmul(
                    self.w.y as int,
                    p.z as int,
                ),
                fmul(self.u.z as int, p.x as int) + fmul(self.v.z as int, p.y as int) + fmul(
                    self.w.z as int,
                    p.z as int,
                ),
            ),
            r.bounded(393252),
    {
        self.local(p.x, p.y, p.z)
    }

    /// Build the frame from a normal: `w` is its unit vector, `v` is a
    /// unit vector orthogonal to `w` (via a cross with whichever axis is
    /// farther from `w`), and `u` closes the frame. Degenerate
    /// cross products fall back to a fixed axis.
    pub fn build_from_w(normal: Vec3) -> (r: ONB)
        requires
            normal.bounded(0x40_0000_0000),
            normal.x != 0 || normal.y != 0 || normal.z != 0,
        ensures
            onb_wf(r),
            sv(r.w) == sunit(normal),
            r == onb_of(normal),
    {
        let w = normal.unit();
        let temp = if w.x > 58982 || w.x < -58982 {
            Vec3 { x: 0, y: 65536, z: 0 }
        } else {
            Vec3 { x: 65536, y: 0, z: 0 }
        };
        let c = w.cross(temp);
        proof {
            lemma_cross_bound(w, temp);
        }
        let v = if c.x == 0 && c.y == 0 && c.z == 0 {
            Vec3 { x: 0, y: 0, z: 65536 }
        } else {
            c.unit()
        };
        let u = w.cross(v);
        proof {
            lemma_cross_bound(w, v);
        }
        ONB { u, v, w }
    }
}

/// What `build_from_w` constructs, as a function of the normal.
pub open spec fn onb_of(normal: Vec3) -> ONB {
    let su = sunit(normal);
    let w = Vec3 { x: su.0 as i64, y: su.1 as i64, z: su.2 as i64 };
    let temp = if w.x > 58982 || w.x < -58982 {
        Vec3 { x: 0i64, y: 65536i64, z: 0i64 }
    } else {
        Vec3 { x: 65536i64, y: 0i64, z: 0i64 }
    };
    let sc = scross(w, temp);
    let c = Vec3 { x: sc.0 as i64, y: sc.1 as i64, z: sc.2 as i64 };
    let v = if c.x == 0 && c.y == 0 && c.z == 0 {
        Vec3 { x: 0i64, y: 0i64, z: 65536i64 }
    } else {
        let suc = sunit(c);
        Vec3 { x: suc.0 as i64, y: suc.1 as i64, z: suc.2 as i64 }
    };
    let su2 = scross(w, v);
    let u = Vec3 { x: su2.0 as i64, y: su2.1 as i64, z: su2.2 as i64 };
    ONB { u, v, w }
}

/// Every product in `local` stays far inside `i64`.
proof fn lemma_local_fits(b: ONB, a: int, bb: int, c: int)
    requires
        onb_wf(b),
        -65537 <= a <= 65537,
        -65537 <= bb <= 65537,
        -65537 <= c <= 65537,
    ensures
        forall|x: int, y: int|
            -131080 <= x <= 131080 && -65537 <= y <= 65537 ==> -131084 <= #[trigger] fmul(x, y)
                <= 131083,
{
    assert forall|x: int, y: int|
        -131080 <= x <= 131080 && -65537 <= y <= 65537 implies -131084 <= #[trigger] fmul(x, y)
        <= 131083 by {
        crate::vec3::lemma_fmul_fits(x, y, 131080, 65537);
    }
}

/// The cross product of two near-unit vectors stays within twice unit
/// scale (plus the rounding step).
proof fn lemma_cross_bound(a: Vec3, b: Vec3)
    requires
        a.bounded(65536),
        b.bounded(65536),
    ensures
        -131073 <= scross(a, b).0 <= 131072,
        -131073 <= scross(a, b).1 <= 131072,
        -131073 <= scross(a, b).2 <= 131072,
{
    crate::vec3::lemma_prod_bound(a.y as int, b.z as int, 65536, 65536);
    crate::vec3::lemma_prod_bound(a.z as int, b.y as int, 65536, 65536);
    crate::vec3::lemma_prod_bound(a.z as int, b.x as int, 65536, 65536);
    crate::vec3::lemma_prod_bound(a.x as int, b.z as int, 65536, 65536);
    crate::vec3::lemma_prod_bound(a.x as int, b.y as int, 65536, 65536);
    crate::vec3::lemma_prod_bound(a.y as int, b.x as int, 65536, 65536);
    crate::fixed::lemma_floor_div_bounds(a.y * b.z - a.z * b.y, 2int * 65536 * 65536, 65536);
    crate::fixed::lemma_floor_div_bounds(a.z * b.x - a.x * b.z, 2int * 65536 * 65536, 65536);
    crate::fixed::lemma_floor_div_bounds(a.x * b.y - a.y * b.x, 2int * 65536 * 65536, 65536);
}

} // verus!
