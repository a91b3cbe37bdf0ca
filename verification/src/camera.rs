//! The camera: a viewport basis derived once from the user's
//! parameters, then one primary ray per pixel sample.

use crate::fixed::fmul;
use crate::ray::Ray;
use crate::onb::sunit;
use crate::vec3::scross;
use crate::vec3::sv;
use crate::vec3::Vec3;
use vstd::prelude::*;

verus! {

#[derive(Clone, Copy, PartialEq, Eq, Structural, Debug)]
pub struct Camera {
    pub vfov: i64,
    pub ratio: i64,
    pub width: u32,
    pub height: u32,
    pub position: Vec3,
    pub lookat: Vec3,
    pub viewport_width: i64,
    pub viewport_height: i64,
    pub vup: Vec3,
    pub lower_left_corner: Vec3,
    pub horizontal: Vec3,
    pub vertical: Vec3,
    pub aperture: i64,
    pub focus_dist: i64,
    pub u: Vec3,
    pub v: Vec3,
    pub w: Vec3,
}

/// The ranges a constructed camera's fields stay in.
pub open spec fn camera_wf(c: Camera) -> bool {
    &&& c.position.bounded(0x20_0000_0000)
    &&& c.lower_left_corner.bounded(0x100_0000_0000)
    &&& c.horizontal.bounded(0x20_0080_0001)
    &&& c.vertical.bounded(0x20_0080_0001)
    &&& c.u.bounded(131080)
    &&& c.v.bounded(131080)
    &&& c.w.bounded(131080)
    &&& 0 <= c.aperture <= 0x10_0000
    &&& 0 <= c.focus_dist < 0x80_0000_0000
}

/// The vector from the camera's position to the look-at point.
pub open spec fn camera_gaze(position: Vec3, lookat: Vec3) -> Vec3 {
    Vec3 {
        x: (position.x - lookat.x) as i64,
        y: (position.y - lookat.y) as i64,
        z: (position.z - lookat.z) as i64,
    }
}

/// `rd` is a point the unit-disk generator can hand back: in the lens
/// plane, strictly inside the unit disk.
pub open spec fn disk_sample(rd: Vec3) -> bool {
    rd.bounded(65536) && rd.z == 0 && crate::vec3::sdot(rd, rd) < 65536
}

/// The ray origin for the disk sample `rd`: the camera's position
/// offset along the viewport basis by the sample scaled to the lens
/// radius (half the aperture).
pub open spec fn lens_origin(c: Camera, rd: Vec3) -> (int, int, int) {
    let half_ap = fmul(c.aperture as int, 32768);
    let rdx = fmul(rd.x as int, half_ap);
    let rdy = fmul(rd.y as int, half_ap);
    (
        crate::hit::clampi(
            c.position.x + fmul(c.u.x as int, rdx) + fmul(c.v.x as int, rdy),
            0x40_0000_0000,
        ),
        crate::hit::clampi(
            c.position.y + fmul(c.u.y as int, rdx) + fmul(c.v.y as int, rdy),
            0x40_0000_0000,
        ),
        crate::hit::clampi(
            c.position.z + fmul(c.u.z as int, rdx) + fmul(c.v.z as int, rdy),
            0x40_0000_0000,
        ),
    )
}

impl Camera {
    /// Derive the viewport basis. `half_tan` is the tangent of half the
    /// vertical field of view, at the fixed scale; the focus distance
    /// is the distance to the look-at point.
    #[verifier::rlimit(100)]
    pub fn new(
        half_tan: i64,
        ratio: i64,
        width: u32,
        position: Vec3,
        lookat: Vec3,
        vup: Vec3,
        aperture: i64,
    ) -> (c: Camera)
        requires
            1 <= half_tan <= 0x80_0000,
            1 <= ratio <= 0x10_0000,
            1 <= width <= 16384,
            position.bounded(0x20_0000_0000),
            lookat.bounded(0x20_0000_0000),
            position != lookat,
            vup.bounded(0x10_0000),
            vup.x != 0 || vup.y != 0 || vup.z != 0,
            0 <= aperture <= 0x10_0000,
        ensures
            camera_wf(c),
            c.position == position,
            c.lookat == lookat,
            c.vup == vup,
            c.aperture == aperture,
            c.width == width,
            c.height as int == (width * 65536) as int / ratio as int,
            c.vfov == half_tan,
            c.ratio == ratio,
            c.viewport_height == 2 * half_tan,
            c.viewport_width as int == fmul(2 * half_tan, ratio as int),
            sv(c.w) == sunit(camera_gaze(position, lookat)),
            c.focus_dist as int == crate::vec3::norm_of(camera_gaze(position, lookat)),
            scross(vup, c.w) == (0int, 0int, 0int) ==> c.u == (Vec3 {
                x: 65536i64,
                y: 0i64,
                z: 0i64,
            }),
            scross(vup, c.w) != (0int, 0int, 0int) ==> sv(c.u) == sunit(
                Vec3 {
                    x: scross(vup, c.w).0 as i64,
                    y: scross(vup, c.w).1 as i64,
                    z: scross(vup, c.w).2 as i64,
                },
            ),
            sv(c.v) == scross(c.w, c.u),
            ({
                let hs = crate::hit::clampi(
                    crate::fixed::clamp64(fmul(c.viewport_width as int, c.focus_dist as int)),
                    0x10_0000_0000,
                );
                sv(c.horizontal) == (
                    fmul(c.u.x as int, hs),
                    fmul(c.u.y as int, hs),
                    fmul(c.u.z as int, hs),
                )
            }),
            ({
                let vs = crate::hit::clampi(
                    crate::fixed::clamp64(fmul(c.viewport_height as int, c.focus_dist as int)),
                    0x10_0000_0000,
                );
                sv(c.vertical) == (
                    fmul(c.v.x as int, vs),
                    fmul(c.v.y as int, vs),
                    fmul(c.v.z as int, vs),
                )
            }),
            sv(c.lower_left_corner) == (
                crate::hit::clampi(
                    c.position.x - fmul(c.horizontal.x as int, 32768) - fmul(
                        c.vertical.x as int,
                        32768,
                    ) - crate::fixed::clamp64(fmul(c.w.x as int, c.focus_dist as int)),
                    0x100_0000_0000,
                ),
                crate::hit::clampi(
                    c.position.y - fmul(c.horizontal.y as int, 32768) - fmul(
                        c.vertical.y as int,
                        32768,
                    ) - crate::fixed::clamp64(fmul(c.w.y as int, c.focus_dist as int)),
                    0x100_0000_0000,
                ),
                crate::hit::clampi(
                    c.position.z - fmul(c.horizontal.z as int, 32768) - fmul(
                        c.vertical.z as int,
                        32768,
                    ) - crate::fixed::clamp64(fmul(c.w.z as int, c.focus_dist as int)),
                    0x100_0000_0000,
                ),
            ),
    {
        let height = (((width as u64) * 65536) / (ratio as u64)) as u32;
        let viewport_height: i64 = 2 * half_tan;
        proof {
            crate::vec3::lemma_fmul_fits(viewport_height as int, ratio as int, 0x100_0000, 0x10_0000);
            vstd::arithmetic::div_mod::lemma_div_is_ordered(
                0,
                (viewport_height as int) * (ratio as int),
                65536,
            );
            assert((viewport_height as int) * (ratio as int) >= 0) by (nonlinear_arith)
                requires
                    viewport_height >= 0,
                    ratio >= 0,
            ;
            assert(0int / 65536 == 0);
        }
        let viewport_width = crate::fixed::mul_fx(viewport_height, ratio);
        let gaze = Vec3 {
            x: position.x - lookat.x,
            y: position.y - lookat.y,
            z: position.z - lookat.z,
        };
        let w = gaze.unit();
        let cuw = vup.cross(w);
        proof {
            lemma_small_cross(vup, w);
        }
        let u = if cuw.x == 0 && cuw.y == 0 && cuw.z == 0 {
            Vec3 { x: 65536, y: 0, z: 0 }
        } else {
            cuw.unit()
        };
        let v = w.cross(u);
        proof {
            lemma_unit_cross(w, u);
        }
        let focus_dist = gaze.length();
        let hscale = crate::hit::clamp_to(
            crate::fixed::mul_fx_clamp(viewport_width, focus_dist),
            0x10_0000_0000,
        );
        let vscale = crate::hit::clamp_to(
            crate::fixed::mul_fx_clamp(viewport_height, focus_dist),
            0x10_0000_0000,
        );
        proof {
            lemma_basis_scale();
        }
        let horizontal = Vec3 {
            x: crate::fixed::mul_fx(u.x, hscale),
            y: crate::fixed::mul_fx(u.y, hscale),
            z: crate::fixed::mul_fx(u.z, hscale),
        };
        let vertical = Vec3 {
            x: crate::fixed::mul_fx(v.x, vscale),
            y: crate::fixed::mul_fx(v.y, vscale),
            z: crate::fixed::mul_fx(v.z, vscale),
        };
        proof {
            crate::vec3::lemma_fmul_fits(u.x as int, hscale as int, 131080, 0x10_0000_0000);
            crate::vec3::lemma_fmul_fits(u.y as int, hscale as int, 131080, 0x10_0000_0000);
            crate::vec3::lemma_fmul_fits(u.z as int, hscale as int, 131080, 0x10_0000_0000);
            crate::vec3::lemma_fmul_fits(v.x as int, vscale as int, 131080, 0x10_0000_0000);
            crate::vec3::lemma_fmul_fits(v.y as int, vscale as int, 131080, 0x10_0000_0000);
            crate::vec3::lemma_fmul_fits(v.z as int, vscale as int, 131080, 0x10_0000_0000);
            crate::vec3::lemma_fmul_fits(horizontal.x as int, 32768, 0x20_0080_0001, 32768);
            crate::vec3::lemma_fmul_fits(horizontal.y as int, 32768, 0x20_0080_0001, 32768);
            crate::vec3::lemma_fmul_fits(horizontal.z as int, 32768, 0x20_0080_0001, 32768);
            crate::vec3::lemma_fmul_fits(vertical.x as int, 32768, 0x20_0080_0001, 32768);
            crate::vec3::lemma_fmul_fits(vertical.y as int, 32768, 0x20_0080_0001, 32768);
            crate::vec3::lemma_fmul_fits(vertical.z as int, 32768, 0x20_0080_0001, 32768);
            crate::vec3::lemma_fmul_fits(w.x as int, focus_dist as int, 131080, 0x80_0000_0000);
            crate::vec3::lemma_fmul_fits(w.y as int, focus_dist as int, 131080, 0x80_0000_0000);
            crate::vec3::lemma_fmul_fits(w.z as int, focus_dist as int, 131080, 0x80_0000_0000);
        }
        let lower_left_corner = Vec3 {
            x: crate::hit::clamp_to(
                position.x - crate::fixed::mul_fx(horizontal.x, 32768) - crate::fixed::mul_fx(
                    vertical.x,
                    32768,
                ) - crate::fixed::mul_fx_clamp(
                    w.x,
                    focus_dist,
                ),
                0x100_0000_0000,
            ),
            y: crate::hit::clamp_to(
                position.y - crate::fixed::mul_fx(horizontal.y, 32768) - crate::fixed::mul_fx(
                    vertical.y,
                    32768,
                ) - crate::fixed::mul_fx_clamp(
                    w.y,
                    focus_dist,
                ),
                0x100_0000_0000,
            ),
            z: crate::hit::clamp_to(
                position.z - crate::fixed::mul_fx(horizontal.z, 32768) - crate::fixed::mul_fx(
                    vertical.z,
                    32768,
                ) - crate::fixed::mul_fx_clamp(
                    w.z,
                    focus_dist,
                ),
                0x100_0000_0000,
            ),
        };
        Camera {
            vfov: half_tan,
            ratio,
            width,
            height,
            position,
            lookat,
            viewport_width,
            viewport_height,
            vup,
            lower_left_corner,
            horizontal,
            vertical,
            aperture,
            focus_dist,
            u,
            v,
            w,
        }
    }

    /// The primary ray through viewport coordinates `(s, t)`, with the
    /// lens offset drawn from the unit disk when the aperture is open:
    /// the origin is the lens image of some disk sample. A closed
    /// aperture leaves the origin at the camera's position, and the
    /// direction is always the exact (clamped) viewport formula for
    /// the chosen origin.
    pub fn get_ray(&self, s: i64, t: i64) -> (r: Ray)
        requires
            camera_wf(*self),
            0 <= s <= 65536,
            0 <= t <= 65536,
        ensures
            crate::ray::ray_wf(r),
            r.direction.bounded(0x10_0000_0000),
            self.aperture == 0 ==> r.origin == self.position,
            exists|rd: Vec3| #[trigger] disk_sample(rd) && sv(r.origin) == lens_origin(*self, rd),
            sv(r.direction) == (
                crate::hit::clampi(
                    self.lower_left_corner.x + fmul(self.horizontal.x as int, s as int) + fmul(
                        self.vertical.x as int,
                        t as int,
                    ) - r.origin.x,
                    0x10_0000_0000,
                ),
                crate::hit::clampi(
                    self.lower_left_corner.y + fmul(self.horizontal.y as int, s as int) + fmul(
                        self.vertical.y as int,
                        t as int,
                    ) - r.origin.y,
                    0x10_0000_0000,
                ),
                crate::hit::clampi(
                    self.lower_left_corner.z + fmul(self.horizontal.z as int, s as int) + fmul(
                        self.vertical.z as int,
                        t as int,
                    ) - r.origin.z,
                    0x10_0000_0000,
                ),
            ),
    {
        let rd = crate::random::random_in_unit_disk();
        proof {
            lemma_lens_fits();
        }
        proof {
            crate::vec3::lemma_fmul_fits(self.aperture as int, 32768, 0x10_0000, 32768);
        }
        let half_ap = crate::fixed::mul_fx(self.aperture, 32768);
        proof {
            crate::vec3::lemma_fmul_fits(rd.x as int, half_ap as int, 65536, 0x8_0000);
            crate::vec3::lemma_fmul_fits(rd.y as int, half_ap as int, 65536, 0x8_0000);
        }
        let rdx = crate::fixed::mul_fx(rd.x, half_ap);
        let rdy = crate::fixed::mul_fx(rd.y, half_ap);
        let origin = if self.aperture == 0 {
            self.position
        } else {
            Vec3 {
                x: crate::hit::clamp_to(
                    self.position.x + crate::fixed::mul_fx(self.u.x, rdx) + crate::fixed::mul_fx(
                        self.v.x,
                        rdy,
                    ),
                    0x40_0000_0000,
                ),
                y: crate::hit::clamp_to(
                    self.position.y + crate::fixed::mul_fx(self.u.y, rdx) + crate::fixed::mul_fx(
                        self.v.y,
                        rdy,
                    ),
                    0x40_0000_0000,
                ),
                z: crate::hit::clamp_to(
                    self.position.z + crate::fixed::mul_fx(self.u.z, rdx) + crate::fixed::mul_fx(
                        self.v.z,
                        rdy,
                    ),
                    0x40_0000_0000,
                ),
            }
        };
        proof {
            assert(disk_sample(rd));
            if self.aperture == 0 {
                assert forall|x: int| #[trigger] fmul(x, 0) == 0 by {
                    assert(x * 0 == 0) by (nonlinear_arith);
                    assert(0int / 65536 == 0);
                }
                assert((self.aperture as int) * 32768 == 0);
                assert(0int / 65536 == 0);
                assert(fmul(self.aperture as int, 32768) == 0);
                assert(sv(origin) == lens_origin(*self, rd));
            } else {
                assert(sv(origin) == lens_origin(*self, rd));
            }
        }
        proof {
            lemma_viewport_fits();
        }
        let direction = Vec3 {
            x: crate::hit::clamp_to(
                self.lower_left_corner.x + crate::fixed::mul_fx(self.horizontal.x, s)
                    + crate::fixed::mul_fx(self.vertical.x, t) - origin.x,
                0x10_0000_0000,
            ),
            y: crate::hit::clamp_to(
                self.lower_left_corner.y + crate::fixed::mul_fx(self.horizontal.y, s)
                    + crate::fixed::mul_fx(self.vertical.y, t) - origin.y,
                0x10_0000_0000,
            ),
            z: crate::hit::clamp_to(
                self.lower_left_corner.z + crate::fixed::mul_fx(self.horizontal.z, s)
                    + crate::fixed::mul_fx(self.vertical.z, t) - origin.z,
                0x10_0000_0000,
            ),
        };
        Ray { origin, direction }
    }
}

/// The cross of a small up vector with a unit vector stays well in
/// range.
proof fn lemma_small_cross(a: Vec3, b: Vec3)
    requires
        a.bounded(0x10_0000),
        b.bounded(65536),
    ensures
        -0x20_0001 <= crate::vec3::scross(a, b).0 <= 0x20_0000,
        -0x20_0001 <= crate::vec3::scross(a, b).1 <= 0x20_0000,
        -0x20_0001 <= crate::vec3::scross(a, b).2 <= 0x20_0000,
{
    crate::vec3::lemma_prod_bound(a.y as int, b.z as int, 0x10_0000, 65536);
    crate::vec3::lemma_prod_bound(a.z as int, b.y as int, 0x10_0000, 65536);
    crate::vec3::lemma_prod_bound(a.z as int, b.x as int, 0x10_0000, 65536);
    crate::vec3::lemma_prod_bound(a.x as int, b.z as int, 0x10_0000, 65536);
    crate::vec3::lemma_prod_bound(a.x as int, b.y as int, 0x10_0000, 65536);
    crate::vec3::lemma_prod_bound(a.y as int, b.x as int, 0x10_0000, 65536);
    crate::fixed::lemma_floor_div_bounds(a.y * b.z - a.z * b.y, 2int * 0x10_0000 * 65536, 65536);
    crate::fixed::lemma_floor_div_bounds(a.z * b.x - a.x * b.z, 2int * 0x10_0000 * 65536, 65536);
    crate::fixed::lemma_floor_div_bounds(a.x * b.y - a.y * b.x, 2int * 0x10_0000 * 65536, 65536);
}

/// The cross of two near-unit vectors stays within twice unit scale.
proof fn lemma_unit_cross(a: Vec3, b: Vec3)
    requires
        a.bounded(65536),
        b.bounded(65536),
    ensures
        -131073 <= crate::vec3::scross(a, b).0 <= 131072,
        -131073 <= crate::vec3::scross(a, b).1 <= 131072,
        -131073 <= crate::vec3::scross(a, b).2 <= 131072,
{
    crate::vec3::lemma_prod_bound(a.y as int, b.z as int, 65536, 65536);
    crate::vec3::lemma_prod_bound(a.z as int, b.y as int, 65536, 65536);
    crate::vec3::lemma_prod_bound(a.z as int, b.x as int, 65536, 65536);
    crate::vec3::lemma_prod_bound(a.x as int, b.z as int, 65536, 65536);
    crate::vec3::lemma_prod_bound(a.x as int, b.y as int, 65536, 65536);
    crate::vec3::lemma_prod_bound(a.y as int, b.x as int, 65536, 65536);
    crate::fixed::lemma_floor_div_bounds(a.y * b.z - a.z * b.y, 2int * 65536 * 65536, 65536);
    crate::fixed::lemma_floor_div_bounds(a.z * b.x - a.x * b.z, 2int * 65536 * 65536, 65536);
    crate::fixed::lemma_floor_div_bounds(a.x * b.y - a.y * b.x, 2int * 65536 * 65536, 65536);
}

/// Scaling a near-unit basis vector by a clamped extent stays within
/// the scene bound.
proof fn lemma_basis_scale()
    ensures
        forall|x: int, y: int|
            -131080 <= x <= 131080 && -0x10_0000_0000 <= y <= 0x10_0000_0000
                ==> -0x20_0080_0001 <= #[trigger] fmul(x, y) <= 0x20_0080_0000,
{
    assert forall|x: int, y: int|
        -131080 <= x <= 131080 && -0x10_0000_0000 <= y <= 0x10_0000_0000
            implies -0x20_0080_0001 <= #[trigger] fmul(x, y) <= 0x20_0080_0000 by {
        crate::vec3::lemma_fmul_fits(x, y, 131080, 0x10_0000_0000);
    }
}

/// The lens offset products stay tiny.
proof fn lemma_lens_fits()
    ensures
        forall|x: int, y: int|
            -131080 <= x <= 131080 && -0x10_0000 <= y <= 0x10_0000 ==> -0x2_0000_0001
                <= #[trigger] fmul(x, y) <= 0x2_0000_0000,
{
    assert forall|x: int, y: int|
        -131080 <= x <= 131080 && -0x10_0000 <= y <= 0x10_0000 implies -0x2_0000_0001
        <= #[trigger] fmul(x, y) <= 0x2_0000_0000 by {
        crate::vec3::lemma_fmul_fits(x, y, 131080, 0x10_0000);
    }
}

/// The viewport combination stays within `i64`.
proof fn lemma_viewport_fits()
    ensures
        forall|x: int, y: int|
            -0x20_0080_0001 <= x <= 0x20_0080_0001 && 0 <= y <= 65536 ==> -0x20_0080_0002
                <= #[trigger] fmul(x, y) <= 0x20_0080_0001,
{
    assert forall|x: int, y: int|
        -0x20_0080_0001 <= x <= 0x20_0080_0001 && 0 <= y <= 65536 implies -0x20_0080_0002
        <= #[trigger] fmul(x, y) <= 0x20_0080_0001 by {
        crate::vec3::lemma_fmul_fits(x, y, 0x20_0080_0001, 65536);
    }
}

} // verus!
