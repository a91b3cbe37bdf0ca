//! The geometry that rays can strike: hit records, the primitives
//! (sphere, axis-aligned rectangles, boxes), the decorators
//! (translation, rotation, volumetric media), and the traversal of the
//! bounding-volume hierarchy.
//!
//! Every executable hit routine has a ghost model — a spec function over
//! unbounded integers that names exactly the record it returns — so the
//! layers above (lists, the bounding-volume hierarchy, the integrator)
//! can reason about intersections as mathematics.

use crate::fixed::fdiv;
use crate::fixed::floor_div;
use crate::fixed::fmul;
use crate::fixed::lemma_fdiv_unit;
use crate::fixed::lemma_floor_div_bounds;
use crate::fixed::lemma_sqrt_floor_props;
use crate::fixed::sqrt_floor;
use crate::ray::at_of;
use crate::ray::ray_wf;
use crate::ray::Ray;
use crate::trig::sasin;
use crate::trig::satan2;
use crate::vec3::lemma_prod_bound;
use crate::vec3::sv;
use crate::vec3::Vec3;
use vstd::arithmetic::div_mod::lemma_div_is_ordered;
use vstd::arithmetic::div_mod::lemma_fundamental_div_mod;
use vstd::prelude::*;

verus! {

/// A successful intersection: parameter, point, surface coordinates,
/// outward-oriented normal, and the index of the material in the scene's
/// material arena.
#[derive(Clone, Copy, PartialEq, Eq, Structural, Debug)]
pub struct HitResult {
    pub t: i64,
    pub p: Vec3,
    pub fu: i64,
    pub fv: i64,
    pub normal: Vec3,
    pub front_face: bool,
    pub mat: usize,
}

/// The mathematical content of a hit record, over unbounded integers.
pub ghost struct GHit {
    pub t: int,
    pub p: (int, int, int),
    pub fu: int,
    pub fv: int,
    pub normal: (int, int, int),
    pub front_face: bool,
    pub mat: int,
}

/// The executable record realises the ghost one field for field.
pub open spec fn hit_matches(h: HitResult, g: GHit) -> bool {
    &&& h.t as int == g.t
    &&& sv(h.p) == g.p
    &&& h.fu as int == g.fu
    &&& h.fv as int == g.fv
    &&& sv(h.normal) == g.normal
    &&& h.front_face == g.front_face
    &&& h.mat as int == g.mat
}

/// An optional executable record realises an optional ghost one.
pub open spec fn omatch(r: Option<HitResult>, g: Option<GHit>) -> bool {
    match r {
        Some(h) => g is Some && hit_matches(h, g->0),
        None => g is None,
    }
}

/// The ghost content of an optional record; `omatch(r, g)` holds
/// exactly when `g == ghost_of(r)`.
pub open spec fn ghost_of(r: Option<HitResult>) -> Option<GHit> {
    match r {
        None => None,
        Some(h) => Some(
            GHit {
                t: h.t as int,
                p: sv(h.p),
                fu: h.fu as int,
                fv: h.fv as int,
                normal: sv(h.normal),
                front_face: h.front_face,
                mat: h.mat as int,
            },
        ),
    }
}

/// The ranges every record handed out by this crate stays in.
pub open spec fn hit_wf(h: HitResult) -> bool {
    &&& h.p.bounded(0x4100_0000_0000_0000)
    &&& h.normal.bounded(131072)
    &&& 0 <= h.fu <= 65536
    &&& 0 <= h.fv <= 65536
    &&& -0x100_0000_0000 <= h.t <= 0x100_0000_0000
}

/// The fixed-point dot product on component triples.
pub open spec fn sdot3(a: (int, int, int), b: (int, int, int)) -> int {
    (a.0 * b.0 + a.1 * b.1 + a.2 * b.2) / 65536
}

/// `x` forced into `[-b, b]`.
pub open spec fn clampi(x: int, b: int) -> int {
    if x < -b {
        -b
    } else if x > b {
        b
    } else {
        x
    }
}

/// `x` forced into `[-b, b]`, executably.
pub fn clamp_to(x: i64, b: i64) -> (r: i64)
    requires
        b >= 0,
    ensures
        r as int == clampi(x as int, b as int),
{
    if x < -b {
        -b
    } else if x > b {
        b
    } else {
        x
    }
}

/// The normal flipped against the incoming ray, with the flag that
/// remembers whether the geometric normal already pointed that way.
pub open spec fn face_normal_of(d: (int, int, int), n: (int, int, int)) -> ((int, int, int), bool) {
    let ff = sdot3(d, n) < 0;
    if ff {
        (n, true)
    } else {
        ((-n.0, -n.1, -n.2), false)
    }
}

/// The sphere's surface coordinates at a unit-scale surface point:
/// longitude from the two-argument arctangent, latitude from the
/// arcsine, both normalised to `[0, 1]`. Inputs are clamped into the
/// ranges the circular functions accept.
pub open spec fn sphere_uv_of(p: (int, int, int)) -> (int, int) {
    let phi = satan2(clampi(p.2, 0x1_0000_0000), clampi(p.0, 0x1_0000_0000));
    let theta = sasin(clampi(p.1, 65536));
    (65536 - fdiv(phi + 205887, 411775), fdiv(theta + 102944, 205887))
}

impl HitResult {
    /// Orient `normal` against the ray and record in `front_face`
    /// whether it already was.
    pub fn set_face_normal(ra: &Ray, normal: &mut Vec3, front_face: &mut bool)
        requires
            ray_wf(*ra),
            old(normal).bounded(131072),
        ensures
            (sv(*final(normal)), *final(front_face)) == face_normal_of(
                sv(ra.direction),
                sv(*old(normal)),
            ),
            final(normal).bounded(131072),
    {
        let d = ra.direction.dot(*normal);
        *front_face = d < 0;
        if !*front_face {
            *normal = Vec3 { x: -normal.x, y: -normal.y, z: -normal.z };
        }
    }

    /// The sphere's surface coordinates for the unit-scale point `p`;
    /// both land in `[0, 1]`.
    pub fn get_sphere_uv(p: Vec3, u: &mut i64, v: &mut i64)
        ensures
            (*final(u) as int, *final(v) as int) == sphere_uv_of(sv(p)),
            0 <= *final(u) <= 65536,
            0 <= *final(v) <= 65536,
    {
        let px = clamp_to(p.x, 0x1_0000_0000);
        let pz = clamp_to(p.z, 0x1_0000_0000);
        let py = clamp_to(p.y, 65536);
        let phi = crate::trig::fx_atan2(pz, px);
        let theta = crate::trig::fx_asin(py);
        proof {
            crate::fixed::lemma_fdiv_unit_slack(phi as int + 205887, 411775);
            crate::fixed::lemma_fdiv_unit_slack(theta as int + 102944, 205887);
        }
        *u = 65536 - crate::fixed::div_fx(phi + 205887, 411775);
        *v = crate::fixed::div_fx(theta + 102944, 205887);
    }
}

/// A sphere: centre, radius, and the material's index in the scene's
/// arena.
#[derive(Clone, Copy, PartialEq, Eq, Structural, Debug)]
pub struct Sphere {
    pub center: Vec3,
    pub radius: i64,
    pub mat: usize,
}

/// A sphere the crate traces against: a scene-bounded centre and a
/// positive, scene-bounded radius.
pub open spec fn sphere_wf(s: Sphere) -> bool {
    s.center.bounded(0x20_0000_0000) && 1 <= s.radius <= 0x1F_0000_0000
}

/// A direction the quadratic admits: scene-bounded and not vanishingly
/// short, so its squared length is at least one scale unit.
pub open spec fn dir_ok(d: Vec3) -> bool {
    d.bounded(0x10_0000_0000) && crate::vec3::nsq(d) >= 65536
}

/// The record a sphere hit at parameter `t` carries: the point on the
/// ray, the normal `(p - centre) / radius` (clamped to twice unit scale),
/// the surface coordinates of that normal, and the oriented-face pair.
pub open spec fn sphere_ghit(s: Sphere, ra: Ray, t: int) -> GHit {
    let p = at_of(ra, t);
    let n0 = (
        clampi(fdiv(p.0 - s.center.x, s.radius as int), 131072),
        clampi(fdiv(p.1 - s.center.y, s.radius as int), 131072),
        clampi(fdiv(p.2 - s.center.z, s.radius as int), 131072),
    );
    let uv = sphere_uv_of(n0);
    let nf = face_normal_of(sv(ra.direction), n0);
    GHit {
        t,
        p,
        fu: uv.0,
        fv: uv.1,
        normal: nf.0,
        front_face: nf.1,
        mat: s.mat as int,
    }
}

/// The point the ray reaches at `t` stays within the rounding-drift
/// margin of the sphere's axis-aligned extent. Root rounding can move
/// the point along the ray by at most one rounding step times the
/// direction's length, so a root whose point has drifted further is
/// numerically inconsistent and is discarded; every reported hit
/// therefore lies inside the sphere's padded bounding box.
pub open spec fn sphere_point_near(s: Sphere, ra: Ray, t: int) -> bool {
    let p = at_of(ra, t);
    &&& s.center.x - s.radius - 0x10_0000 <= p.0 <= s.center.x + s.radius + 0x10_0000
    &&& s.center.y - s.radius - 0x10_0000 <= p.1 <= s.center.y + s.radius + 0x10_0000
    &&& s.center.z - s.radius - 0x10_0000 <= p.2 <= s.center.z + s.radius + 0x10_0000
}

/// The sphere intersection, mirroring the quadratic the code solves:
/// `a t^2 + b t + c` with one rounding per dot product, the discriminant
/// exact, the root rounded once, the nearer root preferred, and a root
/// whose computed point has drifted from the sphere's extent discarded.
pub open spec fn sphere_hit_model(s: Sphere, ra: Ray, tmin: int, tmax: int) -> Option<GHit> {
    let oc = (
        ra.origin.x - s.center.x as int,
        ra.origin.y - s.center.y as int,
        ra.origin.z - s.center.z as int,
    );
    let a = sdot3(sv(ra.direction), sv(ra.direction));
    let b = 2 * sdot3(oc, sv(ra.direction));
    let c = sdot3(oc, oc) - (s.radius * s.radius) / 65536;
    let delta = b * b - 4 * (a * c);
    if delta > 0 {
        let temp = sqrt_floor(delta);
        let r1 = floor_div((-b - temp) * 65536, 2 * a);
        if tmin < r1 < tmax {
            if sphere_point_near(s, ra, r1) {
                Some(sphere_ghit(s, ra, r1))
            } else {
                None
            }
        } else {
            let r2 = floor_div((-b + temp) * 65536, 2 * a);
            if tmin < r2 < tmax {
                if sphere_point_near(s, ra, r2) {
                    Some(sphere_ghit(s, ra, r2))
                } else {
                    None
                }
            } else {
                None
            }
        }
    } else {
        None
    }
}

impl Sphere {
    /// The closest sphere intersection with parameter strictly inside
    /// `(t_min, t_max)`, exactly as `sphere_hit_model` names it.
    pub fn hit(&self, ra: &Ray, t_min: i64, t_max: i64) -> (res: Option<HitResult>)
        requires
            sphere_wf(*self),
            ray_wf(*ra),
            dir_ok(ra.direction),
            -0x100_0000_0000 <= t_min <= t_max <= 0x100_0000_0000,
        ensures
            omatch(res, sphere_hit_model(*self, *ra, t_min as int, t_max as int)),
            res is Some ==> hit_wf(res->0) && t_min < res->0.t < t_max && res->0.mat == self.mat,
    {
        let ocx: i128 = (ra.origin.x as i128) - (self.center.x as i128);
        let ocy: i128 = (ra.origin.y as i128) - (self.center.y as i128);
        let ocz: i128 = (ra.origin.z as i128) - (self.center.z as i128);
        let dx: i128 = ra.direction.x as i128;
        let dy: i128 = ra.direction.y as i128;
        let dz: i128 = ra.direction.z as i128;
        proof {
            lemma_sphere_products(*self, *ra);
            lemma_floor_div_bounds(
                ra.direction.x * ra.direction.x + ra.direction.y * ra.direction.y + ra.direction.z
                    * ra.direction.z,
                0x3000000000000000000,
                65536,
            );
            lemma_floor_div_bounds(
                (ra.origin.x - s_cx(*self)) * ra.direction.x + (ra.origin.y - s_cy(*self))
                    * ra.direction.y + (ra.origin.z - s_cz(*self)) * ra.direction.z,
                0x18000000000000000000,
                65536,
            );
            lemma_floor_div_bounds(
                (ra.origin.x - s_cx(*self)) * (ra.origin.x - s_cx(*self)) + (ra.origin.y - s_cy(
                    *self,
                )) * (ra.origin.y - s_cy(*self)) + (ra.origin.z - s_cz(*self)) * (ra.origin.z
                    - s_cz(*self)),
                0xC0000000000000000000,
                65536,
            );
            lemma_floor_div_bounds(self.radius * self.radius, 0x10000000000000000000, 65536);
            lemma_div_is_ordered(
                0,
                ra.direction.x * ra.direction.x + ra.direction.y * ra.direction.y + ra.direction.z
                    * ra.direction.z,
                65536,
            );
            lemma_div_is_ordered(
                65536,
                ra.direction.x * ra.direction.x + ra.direction.y * ra.direction.y + ra.direction.z
                    * ra.direction.z,
                65536,
            );
            lemma_div_is_ordered(
                0,
                (ra.origin.x - s_cx(*self)) * (ra.origin.x - s_cx(*self)) + (ra.origin.y - s_cy(
                    *self,
                )) * (ra.origin.y - s_cy(*self)) + (ra.origin.z - s_cz(*self)) * (ra.origin.z
                    - s_cz(*self)),
                65536,
            );
            lemma_div_is_ordered(0, self.radius * self.radius, 65536);
            assert(0int / 65536 == 0);
            assert(65536int / 65536 == 1);
        }
        let a: i128 = crate::fixed::floor_div_i128(dx * dx + dy * dy + dz * dz, 65536);
        let hb: i128 = crate::fixed::floor_div_i128(ocx * dx + ocy * dy + ocz * dz, 65536);
        let b: i128 = 2 * hb;
        let rsq: i128 = crate::fixed::floor_div_i128(
            (self.radius as i128) * (self.radius as i128),
            65536,
        );
        let c: i128 = crate::fixed::floor_div_i128(ocx * ocx + ocy * ocy + ocz * ocz, 65536) - rsq;
        proof {
            lemma_sphere_coeff_bounds(a as int, b as int, c as int);
        }
        let delta: i128 = b * b - 4 * (a * c);
        if delta > 0 {
            let temp128 = crate::fixed::isqrt_u128(delta as u128);
            let temp: i128 = temp128 as i128;
            proof {
                lemma_sphere_root_bounds(b as int, temp as int, a as int);
            }
            let r1: i128 = crate::fixed::floor_div_i128((-b - temp) * 65536, 2 * a);
            if (t_min as i128) < r1 && r1 < (t_max as i128) {
                let h = self.make_hit(ra, r1 as i64);
                if self.point_near(&h.p) {
                    return Some(h);
                }
                return None;
            }
            let r2: i128 = crate::fixed::floor_div_i128((-b + temp) * 65536, 2 * a);
            if (t_min as i128) < r2 && r2 < (t_max as i128) {
                let h = self.make_hit(ra, r2 as i64);
                if self.point_near(&h.p) {
                    return Some(h);
                }
                return None;
            }
            None
        } else {
            None
        }
    }

    /// Whether the computed point stays within the rounding-drift
    /// margin of the sphere's axis-aligned extent: the consistency
    /// check an accepted root must pass.
    fn point_near(&self, p: &Vec3) -> (r: bool)
        requires
            sphere_wf(*self),
            p.bounded(0x4100_0000_0000_0000),
        ensures
            r == (self.center.x - self.radius - 0x10_0000 <= p.x <= self.center.x + self.radius
                + 0x10_0000 && self.center.y - self.radius - 0x10_0000 <= p.y <= self.center.y
                + self.radius + 0x10_0000 && self.center.z - self.radius - 0x10_0000 <= p.z
                <= self.center.z + self.radius + 0x10_0000),
    {
        let lo_x = self.center.x - self.radius - 0x10_0000;
        let hi_x = self.center.x + self.radius + 0x10_0000;
        let lo_y = self.center.y - self.radius - 0x10_0000;
        let hi_y = self.center.y + self.radius + 0x10_0000;
        let lo_z = self.center.z - self.radius - 0x10_0000;
        let hi_z = self.center.z + self.radius + 0x10_0000;
        lo_x <= p.x && p.x <= hi_x && lo_y <= p.y && p.y <= hi_y && lo_z <= p.z && p.z <= hi_z
    }

    /// Assemble the record for an accepted root.
    fn make_hit(&self, ra: &Ray, t: i64) -> (h: HitResult)
        requires
            sphere_wf(*self),
            ray_wf(*ra),
            -0x100_0000_0000 <= t <= 0x100_0000_0000,
        ensures
            hit_matches(h, sphere_ghit(*self, *ra, t as int)),
            hit_wf(h),
            h.t == t,
            h.mat == self.mat,
    {
        let p = ra.at(t);
        let nx = clamp_to(
            crate::fixed::div_fx_clamp(p.x - self.center.x, self.radius),
            131072,
        );
        let ny = clamp_to(
            crate::fixed::div_fx_clamp(p.y - self.center.y, self.radius),
            131072,
        );
        let nz = clamp_to(
            crate::fixed::div_fx_clamp(p.z - self.center.z, self.radius),
            131072,
        );
        let mut normal = Vec3 { x: nx, y: ny, z: nz };
        let mut fu: i64 = 0;
        let mut fv: i64 = 0;
        HitResult::get_sphere_uv(normal, &mut fu, &mut fv);
        let mut front_face = false;
        HitResult::set_face_normal(ra, &mut normal, &mut front_face);
        HitResult { t, p, fu, fv, normal, front_face, mat: self.mat }
    }

    /// The box around the sphere: centre shifted by the radius on every
    /// axis, slightly padded.
    pub fn bounding_box(&self) -> (r: crate::aabb::AABB)
        requires
            sphere_wf(*self),
        ensures
            r == sphere_bbox(*self),
            crate::aabb::aabb_wf(r),
            crate::aabb::aabb_bounded(r),
    {
        crate::aabb::AABB {
            min: Vec3 {
                x: self.center.x - self.radius - 0x10_0010,
                y: self.center.y - self.radius - 0x10_0010,
                z: self.center.z - self.radius - 0x10_0010,
            },
            max: Vec3 {
                x: self.center.x + self.radius + 0x10_0010,
                y: self.center.y + self.radius + 0x10_0010,
                z: self.center.z + self.radius + 0x10_0010,
            },
        }
    }
}

/// The sphere's bounding box, as the code computes it.
pub open spec fn sphere_bbox(s: Sphere) -> crate::aabb::AABB {
    crate::aabb::AABB {
        min: Vec3 {
            x: (s.center.x - s.radius - 0x10_0010) as i64,
            y: (s.center.y - s.radius - 0x10_0010) as i64,
            z: (s.center.z - s.radius - 0x10_0010) as i64,
        },
        max: Vec3 {
            x: (s.center.x + s.radius + 0x10_0010) as i64,
            y: (s.center.y + s.radius + 0x10_0010) as i64,
            z: (s.center.z + s.radius + 0x10_0010) as i64,
        },
    }
}

/// An axis-aligned rectangle in the plane `z = k`.
#[derive(Clone, Copy, PartialEq, Eq, Structural, Debug)]
pub struct XyRect {
    pub x0: i64,
    pub x1: i64,
    pub y0: i64,
    pub y1: i64,
    pub k: i64,
    pub mat: usize,
}

/// An axis-aligned rectangle in the plane `y = k`.
#[derive(Clone, Copy, PartialEq, Eq, Structural, Debug)]
pub struct XzRect {
    pub x0: i64,
    pub x1: i64,
    pub z0: i64,
    pub z1: i64,
    pub k: i64,
    pub mat: usize,
}

/// An axis-aligned rectangle in the plane `x = k`.
#[derive(Clone, Copy, PartialEq, Eq, Structural, Debug)]
pub struct YzRect {
    pub y0: i64,
    pub y1: i64,
    pub z0: i64,
    pub z1: i64,
    pub k: i64,
    pub mat: usize,
}

/// A rectangle's extents are proper and scene-bounded.
pub open spec fn xy_rect_wf(r: XyRect) -> bool {
    &&& -0x20_0000_0000 <= r.x0 < r.x1 <= 0x20_0000_0000
    &&& -0x20_0000_0000 <= r.y0 < r.y1 <= 0x20_0000_0000
    &&& -0x20_0000_0000 <= r.k <= 0x20_0000_0000
}

pub open spec fn xz_rect_wf(r: XzRect) -> bool {
    &&& -0x20_0000_0000 <= r.x0 < r.x1 <= 0x20_0000_0000
    &&& -0x20_0000_0000 <= r.z0 < r.z1 <= 0x20_0000_0000
    &&& -0x20_0000_0000 <= r.k <= 0x20_0000_0000
}

pub open spec fn yz_rect_wf(r: YzRect) -> bool {
    &&& -0x20_0000_0000 <= r.y0 < r.y1 <= 0x20_0000_0000
    &&& -0x20_0000_0000 <= r.z0 < r.z1 <= 0x20_0000_0000
    &&& -0x20_0000_0000 <= r.k <= 0x20_0000_0000
}

/// The plane intersection all three rectangles share: the parameter at
/// which the ray crosses `axis = k`, for one axis with origin `o` and
/// direction `d`; the surface coordinates are the two in-plane offsets
/// scaled by the extents; a hit on the boundary of `[tmin, tmax]`
/// counts.
pub open spec fn xy_rect_hit_model(r: XyRect, ra: Ray, tmin: int, tmax: int) -> Option<GHit> {
    if ra.direction.z == 0 {
        None
    } else {
        let t = fdiv(r.k - ra.origin.z, ra.direction.z as int);
        if t < tmin || t > tmax {
            None
        } else {
            let x = ra.origin.x + fmul(t, ra.direction.x as int);
            let y = ra.origin.y + fmul(t, ra.direction.y as int);
            if x < r.x0 || x > r.x1 || y < r.y0 || y > r.y1 {
                None
            } else {
                let nf = face_normal_of(sv(ra.direction), (0, 0, 65536));
                Some(
                    GHit {
                        t,
                        p: at_of(ra, t),
                        fu: fdiv(x - r.x0, r.x1 - r.x0),
                        fv: fdiv(y - r.y0, r.y1 - r.y0),
                        normal: nf.0,
                        front_face: nf.1,
                        mat: r.mat as int,
                    },
                )
            }
        }
    }
}

pub open spec fn xz_rect_hit_model(r: XzRect, ra: Ray, tmin: int, tmax: int) -> Option<GHit> {
    if ra.direction.y == 0 {
        None
    } else {
        let t = fdiv(r.k - ra.origin.y, ra.direction.y as int);
        if t < tmin || t > tmax {
            None
        } else {
            let x = ra.origin.x + fmul(t, ra.direction.x as int);
            let z = ra.origin.z + fmul(t, ra.direction.z as int);
            if x < r.x0 || x > r.x1 || z < r.z0 || z > r.z1 {
                None
            } else {
                let nf = face_normal_of(sv(ra.direction), (0, 65536, 0));
                Some(
                    GHit {
                        t,
                        p: at_of(ra, t),
                        fu: fdiv(x - r.x0, r.x1 - r.x0),
                        fv: fdiv(z - r.z0, r.z1 - r.z0),
                        normal: nf.0,
                        front_face: nf.1,
                        mat: r.mat as int,
                    },
                )
            }
        }
    }
}

pub open spec fn yz_rect_hit_model(r: YzRect, ra: Ray, tmin: int, tmax: int) -> Option<GHit> {
    if ra.direction.x == 0 {
        None
    } else {
        let t = fdiv(r.k - ra.origin.x, ra.direction.x as int);
        if t < tmin || t > tmax {
            None
        } else {
            let z = ra.origin.z + fmul(t, ra.direction.z as int);
            let y = ra.origin.y + fmul(t, ra.direction.y as int);
            if z < r.z0 || z > r.z1 || y < r.y0 || y > r.y1 {
                None
            } else {
                let nf = face_normal_of(sv(ra.direction), (65536, 0, 0));
                Some(
                    GHit {
                        t,
                        p: at_of(ra, t),
                        fu: fdiv(y - r.y0, r.y1 - r.y0),
                        fv: fdiv(z - r.z0, r.z1 - r.z0),
                        normal: nf.0,
                        front_face: nf.1,
                        mat: r.mat as int,
                    },
                )
            }
        }
    }
}

/// The parameter at which a ray crosses the plane `axis = k`, with the
/// bounds every caller needs.
fn plane_t(k: i64, o: i64, d: i64) -> (t: i64)
    requires
        d != 0,
        -0x20_0000_0000 <= k <= 0x20_0000_0000,
        -0x40_0000_0000 <= o <= 0x40_0000_0000,
    ensures
        t as int == fdiv(k - o as int, d as int),
{
    proof {
        crate::fixed::lemma_floor_div_small(
            (k - o as int) * 65536,
            d as int,
            0x60_0000_0000_0000,
        );
    }
    crate::fixed::div_fx(k - o, d)
}

/// The in-plane point reached at parameter `t` on one axis.
fn plane_coord(o: i64, d: i64, t: i64) -> (x: i64)
    requires
        -0x40_0000_0000 <= o <= 0x40_0000_0000,
        -0x10_0000_0000 <= d <= 0x10_0000_0000,
        -0x100_0000_0000 <= t <= 0x100_0000_0000,
    ensures
        x as int == o + fmul(t as int, d as int),
        -0x1100_0000_0000_0000 <= x <= 0x1100_0000_0000_0000,
    {
    proof {
        crate::vec3::lemma_fmul_fits(t as int, d as int, 0x100_0000_0000, 0x10_0000_0000);
    }
    o + crate::fixed::mul_fx(t, d)
}

/// The normalised offset of `x` inside `[lo, hi]`, in `[0, 1]`.
fn plane_frac(x: i64, lo: i64, hi: i64) -> (f: i64)
    requires
        lo < hi,
        lo <= x <= hi,
        -0x20_0000_0000 <= lo,
        hi <= 0x20_0000_0000,
    ensures
        f as int == fdiv(x - lo as int, hi - lo as int),
        0 <= f <= 65536,
{
    proof {
        crate::fixed::lemma_fdiv_unit_nonneg(x - lo as int, hi - lo as int);
    }
    crate::fixed::div_fx(x - lo, hi - lo)
}

impl XyRect {
    /// The ray's crossing of the rectangle's plane, if it lands inside
    /// the extents and inside `[t_min, t_max]`: exactly
    /// `xy_rect_hit_model`.
    pub fn hit(&self, ra: &Ray, t_min: i64, t_max: i64) -> (res: Option<HitResult>)
        requires
            xy_rect_wf(*self),
            ray_wf(*ra),
            ra.direction.bounded(0x10_0000_0000),
            -0x100_0000_0000 <= t_min <= t_max <= 0x100_0000_0000,
        ensures
            omatch(res, xy_rect_hit_model(*self, *ra, t_min as int, t_max as int)),
            res is Some ==> hit_wf(res->0) && t_min <= res->0.t <= t_max && res->0.mat == self.mat,
    {
        if ra.direction.z == 0 {
            return None;
        }
        let t = plane_t(self.k, ra.origin.z, ra.direction.z);
        if t < t_min || t > t_max {
            return None;
        }
        let x = plane_coord(ra.origin.x, ra.direction.x, t);
        let y = plane_coord(ra.origin.y, ra.direction.y, t);
        if x < self.x0 || x > self.x1 || y < self.y0 || y > self.y1 {
            return None;
        }
        let fu = plane_frac(x, self.x0, self.x1);
        let fv = plane_frac(y, self.y0, self.y1);
        let mut normal = Vec3 { x: 0, y: 0, z: 65536 };
        let mut front_face = false;
        HitResult::set_face_normal(ra, &mut normal, &mut front_face);
        Some(HitResult { t, p: ra.at(t), fu, fv, normal, front_face, mat: self.mat })
    }

    /// The flat box around the rectangle, padded slightly along its
    /// plane's axis.
    pub fn bounding_box(&self) -> (r: crate::aabb::AABB)
        requires
            xy_rect_wf(*self),
        ensures
            r == xy_rect_bbox(*self),
            crate::aabb::aabb_wf(r),
            crate::aabb::aabb_bounded(r),
    {
        crate::aabb::AABB {
            min: Vec3 { x: self.x0 - 0x10_0000, y: self.y0 - 0x10_0000, z: self.k - 0x10_0000 },
            max: Vec3 { x: self.x1 + 0x10_0000, y: self.y1 + 0x10_0000, z: self.k + 0x10_0000 },
        }
    }
}

pub open spec fn xy_rect_bbox(r: XyRect) -> crate::aabb::AABB {
    crate::aabb::AABB {
        min: Vec3 { x: (r.x0 - 0x10_0000) as i64, y: (r.y0 - 0x10_0000) as i64, z: (r.k - 0x10_0000) as i64 },
        max: Vec3 { x: (r.x1 + 0x10_0000) as i64, y: (r.y1 + 0x10_0000) as i64, z: (r.k + 0x10_0000) as i64 },
    }
}

impl XzRect {
    /// The ray's crossing of the rectangle's plane, if it lands inside
    /// the extents and inside `[t_min, t_max]`: exactly
    /// `xz_rect_hit_model`.
    pub fn hit(&self, ra: &Ray, t_min: i64, t_max: i64) -> (res: Option<HitResult>)
        requires
            xz_rect_wf(*self),
            ray_wf(*ra),
            ra.direction.bounded(0x10_0000_0000),
            -0x100_0000_0000 <= t_min <= t_max <= 0x100_0000_0000,
        ensures
            omatch(res, xz_rect_hit_model(*self, *ra, t_min as int, t_max as int)),
            res is Some ==> hit_wf(res->0) && t_min <= res->0.t <= t_max && res->0.mat == self.mat,
    {
        if ra.direction.y == 0 {
            return None;
        }
        let t = plane_t(self.k, ra.origin.y, ra.direction.y);
        if t < t_min || t > t_max {
            return None;
        }
        let x = plane_coord(ra.origin.x, ra.direction.x, t);
        let z = plane_coord(ra.origin.z, ra.direction.z, t);
        if x < self.x0 || x > self.x1 || z < self.z0 || z > self.z1 {
            return None;
        }
        let fu = plane_frac(x, self.x0, self.x1);
        let fv = plane_frac(z, self.z0, self.z1);
        let mut normal = Vec3 { x: 0, y: 65536, z: 0 };
        let mut front_face = false;
        HitResult::set_face_normal(ra, &mut normal, &mut front_face);
        Some(HitResult { t, p: ra.at(t), fu, fv, normal, front_face, mat: self.mat })
    }

    /// The flat box around the rectangle, padded slightly along its
    /// plane's axis.
    pub fn bounding_box(&self) -> (r: crate::aabb::AABB)
        requires
            xz_rect_wf(*self),
        ensures
            r == xz_rect_bbox(*self),
            crate::aabb::aabb_wf(r),
            crate::aabb::aabb_bounded(r),
    {
        crate::aabb::AABB {
            min: Vec3 { x: self.x0 - 0x10_0000, y: self.k - 0x10_0000, z: self.z0 - 0x10_0000 },
            max: Vec3 { x: self.x1 + 0x10_0000, y: self.k + 0x10_0000, z: self.z1 + 0x10_0000 },
        }
    }
}

pub open spec fn xz_rect_bbox(r: XzRect) -> crate::aabb::AABB {
    crate::aabb::AABB {
        min: Vec3 { x: (r.x0 - 0x10_0000) as i64, y: (r.k - 0x10_0000) as i64, z: (r.z0 - 0x10_0000) as i64 },
        max: Vec3 { x: (r.x1 + 0x10_0000) as i64, y: (r.k + 0x10_0000) as i64, z: (r.z1 + 0x10_0000) as i64 },
    }
}

impl YzRect {
    /// The ray's crossing of the rectangle's plane, if it lands inside
    /// the extents and inside `[t_min, t_max]`: exactly
    /// `yz_rect_hit_model`.
    pub fn hit(&self, ra: &Ray, t_min: i64, t_max: i64) -> (res: Option<HitResult>)
        requires
            yz_rect_wf(*self),
            ray_wf(*ra),
            ra.direction.bounded(0x10_0000_0000),
            -0x100_0000_0000 <= t_min <= t_max <= 0x100_0000_0000,
        ensures
            omatch(res, yz_rect_hit_model(*self, *ra, t_min as int, t_max as int)),
            res is Some ==> hit_wf(res->0) && t_min <= res->0.t <= t_max && res->0.mat == self.mat,
    {
        if ra.direction.x == 0 {
            return None;
        }
        let t = plane_t(self.k, ra.origin.x, ra.direction.x);
        if t < t_min || t > t_max {
            return None;
        }
        let z = plane_coord(ra.origin.z, ra.direction.z, t);
        let y = plane_coord(ra.origin.y, ra.direction.y, t);
        if z < self.z0 || z > self.z1 || y < self.y0 || y > self.y1 {
            return None;
        }
        let fu = plane_frac(y, self.y0, self.y1);
        let fv = plane_frac(z, self.z0, self.z1);
        let mut normal = Vec3 { x: 65536, y: 0, z: 0 };
        let mut front_face = false;
        HitResult::set_face_normal(ra, &mut normal, &mut front_face);
        Some(HitResult { t, p: ra.at(t), fu, fv, normal, front_face, mat: self.mat })
    }

    /// The flat box around the rectangle, padded slightly along its
    /// plane's axis.
    pub fn bounding_box(&self) -> (r: crate::aabb::AABB)
        requires
            yz_rect_wf(*self),
        ensures
            r == yz_rect_bbox(*self),
            crate::aabb::aabb_wf(r),
            crate::aabb::aabb_bounded(r),
    {
        crate::aabb::AABB {
            min: Vec3 { x: self.k - 0x10_0000, y: self.y0 - 0x10_0000, z: self.z0 - 0x10_0000 },
            max: Vec3 { x: self.k + 0x10_0000, y: self.y1 + 0x10_0000, z: self.z1 + 0x10_0000 },
        }
    }
}

pub open spec fn yz_rect_bbox(r: YzRect) -> crate::aabb::AABB {
    crate::aabb::AABB {
        min: Vec3 { x: (r.k - 0x10_0000) as i64, y: (r.y0 - 0x10_0000) as i64, z: (r.z0 - 0x10_0000) as i64 },
        max: Vec3 { x: (r.k + 0x10_0000) as i64, y: (r.y1 + 0x10_0000) as i64, z: (r.z1 + 0x10_0000) as i64 },
    }
}

/// An axis-aligned box, kept as its two extreme corners and the six
/// rectangles the rays actually strike.
#[derive(Clone, Copy, PartialEq, Eq, Structural, Debug)]
pub struct Cube {
    pub p0: Vec3,
    pub p1: Vec3,
    pub mat: usize,
    pub xy_hi: XyRect,
    pub xy_lo: XyRect,
    pub xz_hi: XzRect,
    pub xz_lo: XzRect,
    pub yz_hi: YzRect,
    pub yz_lo: YzRect,
}

/// A hitable shifted by a fixed offset.
#[derive(Debug)]
pub struct Translate {
    pub offset: Vec3,
    pub child: Box<Hitable>,
}

/// A hitable rotated about the vertical axis; the sine and cosine are
/// fixed at construction and the world-space box is cached.
#[derive(Debug)]
pub struct RotateY {
    pub sin_theta: i64,
    pub cos_theta: i64,
    pub bbox: Option<crate::aabb::AABB>,
    pub child: Box<Hitable>,
}

/// A volume of constant density bounded by another hitable; rays
/// scatter inside it after an exponentially distributed free path.
#[derive(Debug)]
pub struct ConstantMedium {
    pub density: i64,
    pub boundary: Box<Hitable>,
    pub phase: usize,
}

/// One node of the bounding-volume hierarchy: a cached box and two
/// children (which may alias the same leaf value).
#[derive(Debug)]
pub struct BVHNode {
    pub bbox: crate::aabb::AABB,
    pub left: Box<Hitable>,
    pub right: Box<Hitable>,
}

/// Everything a ray can strike.
#[derive(Debug)]
pub enum Hitable {
    Sphere(Sphere),
    XyRect(XyRect),
    XzRect(XzRect),
    YzRect(YzRect),
    Cube(Cube),
    Translate(Translate),
    RotateY(RotateY),
    ConstantMedium(ConstantMedium),
    Node(BVHNode),
}

impl Clone for Hitable {
    /// A deep copy that is spec-equal to the original.
    fn clone(&self) -> (r: Self)
        ensures
            r == *self,
        decreases *self,
    {
        match self {
            Hitable::Sphere(s) => Hitable::Sphere(*s),
            Hitable::XyRect(x) => Hitable::XyRect(*x),
            Hitable::XzRect(x) => Hitable::XzRect(*x),
            Hitable::YzRect(x) => Hitable::YzRect(*x),
            Hitable::Cube(c) => Hitable::Cube(*c),
            Hitable::Translate(t) => Hitable::Translate(
                Translate { offset: t.offset, child: Box::new((*t.child).clone()) },
            ),
            Hitable::RotateY(r) => Hitable::RotateY(
                RotateY {
                    sin_theta: r.sin_theta,
                    cos_theta: r.cos_theta,
                    bbox: r.bbox,
                    child: Box::new((*r.child).clone()),
                },
            ),
            Hitable::ConstantMedium(m) => Hitable::ConstantMedium(
                ConstantMedium {
                    density: m.density,
                    boundary: Box::new((*m.boundary).clone()),
                    phase: m.phase,
                },
            ),
            Hitable::Node(n) => Hitable::Node(
                BVHNode {
                    bbox: n.bbox,
                    left: Box::new((*n.left).clone()),
                    right: Box::new((*n.right).clone()),
                },
            ),
        }
    }
}

pub open spec fn cube_wf(c: Cube) -> bool {
    &&& c.p0.x < c.p1.x && c.p0.y < c.p1.y && c.p0.z < c.p1.z
    &&& c.p0.bounded(0x20_0000_0000) && c.p1.bounded(0x20_0000_0000)
    &&& c.xy_hi == (XyRect { x0: c.p0.x, x1: c.p1.x, y0: c.p0.y, y1: c.p1.y, k: c.p1.z, mat: c.mat })
    &&& c.xy_lo == (XyRect { x0: c.p0.x, x1: c.p1.x, y0: c.p0.y, y1: c.p1.y, k: c.p0.z, mat: c.mat })
    &&& c.xz_hi == (XzRect { x0: c.p0.x, x1: c.p1.x, z0: c.p0.z, z1: c.p1.z, k: c.p1.y, mat: c.mat })
    &&& c.xz_lo == (XzRect { x0: c.p0.x, x1: c.p1.x, z0: c.p0.z, z1: c.p1.z, k: c.p0.y, mat: c.mat })
    &&& c.yz_hi == (YzRect { y0: c.p0.y, y1: c.p1.y, z0: c.p0.z, z1: c.p1.z, k: c.p1.x, mat: c.mat })
    &&& c.yz_lo == (YzRect { y0: c.p0.y, y1: c.p1.y, z0: c.p0.z, z1: c.p1.z, k: c.p0.x, mat: c.mat })
}

impl Hitable {
    /// The structural well-formedness every scene tree keeps.
    pub open spec fn wf(self) -> bool
        decreases self,
    {
        match self {
            Hitable::Sphere(s) => sphere_wf(s),
            Hitable::XyRect(r) => xy_rect_wf(r),
            Hitable::XzRect(r) => xz_rect_wf(r),
            Hitable::YzRect(r) => yz_rect_wf(r),
            Hitable::Cube(c) => cube_wf(c),
            Hitable::Translate(t) => t.offset.bounded(0x10_0000_0000) && t.child.wf(),
            Hitable::RotateY(r) => {
                &&& -65536 <= r.sin_theta <= 65536
                &&& -65536 <= r.cos_theta <= 65536
                &&& (match r.bbox {
                    Some(b) => crate::aabb::aabb_wf(b) && crate::aabb::aabb_bounded(b),
                    None => true,
                })
                &&& r.child.wf()
            },
            Hitable::ConstantMedium(m) => m.density >= 0 && m.boundary.wf(),
            Hitable::Node(n) => crate::aabb::aabb_wf(n.bbox) && crate::aabb::aabb_bounded(n.bbox)
                && n.left.wf() && n.right.wf(),
        }
    }

    /// No volumetric medium anywhere in the tree: on such trees the hit
    /// routine is a pure function of its arguments, named by `model`.
    pub open spec fn media_free(self) -> bool
        decreases self,
    {
        match self {
            Hitable::Cube(_) => true,
            Hitable::Translate(t) => t.child.media_free(),
            Hitable::RotateY(r) => r.child.media_free(),
            Hitable::ConstantMedium(_) => false,
            Hitable::Node(n) => n.left.media_free() && n.right.media_free(),
            _ => true,
        }
    }

    /// Every material index mentioned in the tree lies below `n`.
    pub open spec fn mats_in(self, n: int) -> bool
        decreases self,
    {
        match self {
            Hitable::Sphere(s) => (s.mat as int) < n,
            Hitable::XyRect(r) => (r.mat as int) < n,
            Hitable::XzRect(r) => (r.mat as int) < n,
            Hitable::YzRect(r) => (r.mat as int) < n,
            Hitable::Cube(c) => (c.mat as int) < n,
            Hitable::Translate(t) => t.child.mats_in(n),
            Hitable::RotateY(r) => r.child.mats_in(n),
            Hitable::ConstantMedium(m) => (m.phase as int) < n && m.boundary.mats_in(n),
            Hitable::Node(nd) => nd.left.mats_in(n) && nd.right.mats_in(n),
        }
    }
}

/// The coordinate clamp applied wherever a decorator could push a value
/// out of the scene bound: identity on every value the bound admits.
pub open spec fn clamp_c(x: int) -> i64 {
    clampi(x, 0x40_0000_0000) as i64
}

/// The direction clamp, at the tighter direction bound.
pub open spec fn clamp_d(x: int) -> i64 {
    clampi(x, 0x10_0000_0000) as i64
}

/// The ray a `Translate` hands its child: the origin shifted back by
/// the offset (clamped into the scene bound), the direction unchanged.
pub open spec fn moved_ray_of(ra: Ray, off: Vec3) -> Ray {
    Ray {
        origin: Vec3 {
            x: clamp_c(ra.origin.x - off.x),
            y: clamp_c(ra.origin.y - off.y),
            z: clamp_c(ra.origin.z - off.z),
        },
        direction: ra.direction,
    }
}

/// Rotation into object space: `x' = c x - s z`, `z' = s x + c z`.
pub open spec fn rot1_of(s: int, c: int, x: int, z: int) -> (int, int) {
    (fmul(c, x) - fmul(s, z), fmul(s, x) + fmul(c, z))
}

/// Rotation back to world space: `x' = c x + s z`, `z' = -s x + c z`.
pub open spec fn rot2_of(s: int, c: int, x: int, z: int) -> (int, int) {
    (fmul(c, x) + fmul(s, z), fmul(c, z) - fmul(s, x))
}

/// The ray a `RotateY` hands its child: origin and direction rotated
/// into object space and clamped back into their bounds.
pub open spec fn rotated_ray_of(r: RotateY, ra: Ray) -> Ray {
    let o = rot1_of(r.sin_theta as int, r.cos_theta as int, ra.origin.x as int, ra.origin.z as int);
    let d = rot1_of(
        r.sin_theta as int,
        r.cos_theta as int,
        ra.direction.x as int,
        ra.direction.z as int,
    );
    Ray {
        origin: Vec3 { x: clamp_c(o.0), y: ra.origin.y, z: clamp_c(o.1) },
        direction: Vec3 { x: clamp_d(d.0), y: ra.direction.y, z: clamp_d(d.1) },
    }
}

/// A hit record carried back out of a `RotateY`: the point and normal
/// rotated to world space (the point first pulled into the range the
/// rotation arithmetic admits) and the face recomputed against the
/// object-space ray, exactly as the hit routine does it.
pub open spec fn rotate_back(r: RotateY, rra: Ray, g: GHit) -> GHit {
    let px = clampi(g.p.0, 0x1000_0000_0000_0000);
    let pz = clampi(g.p.2, 0x1000_0000_0000_0000);
    let p2 = rot2_of(r.sin_theta as int, r.cos_theta as int, px, pz);
    let n2 = rot2_of(r.sin_theta as int, r.cos_theta as int, g.normal.0, g.normal.2);
    let n3 = (clampi(n2.0, 131072), g.normal.1, clampi(n2.1, 131072));
    let nf = face_normal_of(sv(rra.direction), n3);
    GHit {
        t: g.t,
        p: (p2.0, g.p.1, p2.1),
        fu: g.fu,
        fv: g.fv,
        normal: nf.0,
        front_face: nf.1,
        mat: g.mat,
    }
}

impl Hitable {
    /// What the hit routine returns on a media-free tree: a function of
    /// the ray and the interval alone.
    pub open spec fn model(self, ra: Ray, tmin: int, tmax: int) -> Option<GHit>
        decreases self,
    {
        match self {
            Hitable::Sphere(s) => sphere_hit_model(s, ra, tmin, tmax),
            Hitable::XyRect(r) => xy_rect_hit_model(r, ra, tmin, tmax),
            Hitable::XzRect(r) => xz_rect_hit_model(r, ra, tmin, tmax),
            Hitable::YzRect(r) => yz_rect_hit_model(r, ra, tmin, tmax),
            Hitable::Cube(c) => cube_hit_model(c, ra, tmin, tmax),
            Hitable::Translate(t) => translate_model(t, ra, tmin, tmax),
            Hitable::RotateY(r) => rotate_y_model(r, ra, tmin, tmax),
            Hitable::ConstantMedium(_) => None,
            Hitable::Node(n) => node_model(n, ra, tmin, tmax),
        }
    }
}

/// The shifted ray's hit carried back into world space.
pub open spec fn translate_model(t: Translate, ra: Ray, tmin: int, tmax: int) -> Option<GHit>
    decreases t,
{
    let moved = moved_ray_of(ra, t.offset);
    match t.child.model(moved, tmin, tmax) {
        None => None,
        Some(g) => {
            let nf = face_normal_of(sv(moved.direction), g.normal);
            Some(
                GHit {
                    t: g.t,
                    p: (
                        clampi(g.p.0 + t.offset.x, 0x4100_0000_0000_0000),
                        clampi(g.p.1 + t.offset.y, 0x4100_0000_0000_0000),
                        clampi(g.p.2 + t.offset.z, 0x4100_0000_0000_0000),
                    ),
                    fu: g.fu,
                    fv: g.fv,
                    normal: nf.0,
                    front_face: nf.1,
                    mat: g.mat,
                },
            )
        },
    }
}

/// The rotated ray's hit carried back into world space; a rotation that
/// degenerates the direction below the unit threshold yields no hit.
pub open spec fn rotate_y_model(r: RotateY, ra: Ray, tmin: int, tmax: int) -> Option<GHit>
    decreases r,
{
    let rra = rotated_ray_of(r, ra);
    if crate::vec3::nsq(rra.direction) < 65536 {
        None
    } else {
        match r.child.model(rra, tmin, tmax) {
            None => None,
            Some(g) => Some(rotate_back(r, rra, g)),
        }
    }
}

/// Prune on the cached box, then whichever child is struck first; on a
/// tie the right child's record is kept.
pub open spec fn node_model(n: BVHNode, ra: Ray, tmin: int, tmax: int) -> Option<GHit>
    decreases n,
{
    if !crate::aabb::aabb_hit(n.bbox, ra, tmin, tmax) {
        None
    } else {
        let lo = n.left.model(ra, tmin, tmax);
        let ro = n.right.model(ra, tmin, tmax);
        match lo {
            Some(lh) => match ro {
                Some(rh) => if lh.t < rh.t {
                    lo
                } else {
                    ro
                },
                None => lo,
            },
            None => ro,
        }
    }
}

/// The fold the box performs over its six faces, each tested against
/// the closest parameter found so far.
pub open spec fn cube_hit_model(c: Cube, ra: Ray, tmin: int, tmax: int) -> Option<GHit> {
    let b0 = xy_rect_hit_model(c.xy_hi, ra, tmin, tmax);
    let t0 = if b0 is Some {
        b0->0.t
    } else {
        tmax
    };
    let r1 = xy_rect_hit_model(c.xy_lo, ra, tmin, t0);
    let b1 = if r1 is Some {
        r1
    } else {
        b0
    };
    let t1 = if b1 is Some {
        b1->0.t
    } else {
        tmax
    };
    let r2 = xz_rect_hit_model(c.xz_hi, ra, tmin, t1);
    let b2 = if r2 is Some {
        r2
    } else {
        b1
    };
    let t2 = if b2 is Some {
        b2->0.t
    } else {
        tmax
    };
    let r3 = xz_rect_hit_model(c.xz_lo, ra, tmin, t2);
    let b3 = if r3 is Some {
        r3
    } else {
        b2
    };
    let t3 = if b3 is Some {
        b3->0.t
    } else {
        tmax
    };
    let r4 = yz_rect_hit_model(c.yz_hi, ra, tmin, t3);
    let b4 = if r4 is Some {
        r4
    } else {
        b3
    };
    let t4 = if b4 is Some {
        b4->0.t
    } else {
        tmax
    };
    let r5 = yz_rect_hit_model(c.yz_lo, ra, tmin, t4);
    if r5 is Some {
        r5
    } else {
        b4
    }
}

impl Cube {
    /// Assemble a box from two opposite corners; the six faces share
    /// the one material.
    pub fn new(p0: Vec3, p1: Vec3, mat: usize) -> (c: Cube)
        requires
            p0.x < p1.x,
            p0.y < p1.y,
            p0.z < p1.z,
            p0.bounded(0x20_0000_0000),
            p1.bounded(0x20_0000_0000),
        ensures
            cube_wf(c),
            c.p0 == p0,
            c.p1 == p1,
            c.mat == mat,
    {
        Cube {
            p0,
            p1,
            mat,
            xy_hi: XyRect { x0: p0.x, x1: p1.x, y0: p0.y, y1: p1.y, k: p1.z, mat },
            xy_lo: XyRect { x0: p0.x, x1: p1.x, y0: p0.y, y1: p1.y, k: p0.z, mat },
            xz_hi: XzRect { x0: p0.x, x1: p1.x, z0: p0.z, z1: p1.z, k: p1.y, mat },
            xz_lo: XzRect { x0: p0.x, x1: p1.x, z0: p0.z, z1: p1.z, k: p0.y, mat },
            yz_hi: YzRect { y0: p0.y, y1: p1.y, z0: p0.z, z1: p1.z, k: p1.x, mat },
            yz_lo: YzRect { y0: p0.y, y1: p1.y, z0: p0.z, z1: p1.z, k: p0.x, mat },
        }
    }

    /// The closest of the six face crossings, exactly `cube_hit_model`.
    pub fn hit(&self, ra: &Ray, t_min: i64, t_max: i64) -> (res: Option<HitResult>)
        requires
            cube_wf(*self),
            ray_wf(*ra),
            ra.direction.bounded(0x10_0000_0000),
            -0x100_0000_0000 <= t_min <= t_max <= 0x100_0000_0000,
        ensures
            omatch(res, cube_hit_model(*self, *ra, t_min as int, t_max as int)),
            res is Some ==> hit_wf(res->0) && t_min <= res->0.t <= t_max && res->0.mat == self.mat,
    {
        let mut best: Option<HitResult> = None;
        let mut closest: i64 = t_max;
        if let Some(h) = self.xy_hi.hit(ra, t_min, closest) {
            closest = h.t;
            best = Some(h);
        }
        if let Some(h) = self.xy_lo.hit(ra, t_min, closest) {
            closest = h.t;
            best = Some(h);
        }
        if let Some(h) = self.xz_hi.hit(ra, t_min, closest) {
            closest = h.t;
            best = Some(h);
        }
        if let Some(h) = self.xz_lo.hit(ra, t_min, closest) {
            closest = h.t;
            best = Some(h);
        }
        if let Some(h) = self.yz_hi.hit(ra, t_min, closest) {
            closest = h.t;
            best = Some(h);
        }
        if let Some(h) = self.yz_lo.hit(ra, t_min, closest) {
            closest = h.t;
            best = Some(h);
        }
        best
    }

    /// The box between the two corners, slightly padded.
    pub fn bounding_box(&self) -> (r: crate::aabb::AABB)
        requires
            cube_wf(*self),
        ensures
            r == cube_bbox(*self),
            crate::aabb::aabb_wf(r),
            crate::aabb::aabb_bounded(r),
    {
        crate::aabb::AABB {
            min: Vec3 { x: self.p0.x - 0x10_0000, y: self.p0.y - 0x10_0000, z: self.p0.z - 0x10_0000 },
            max: Vec3 { x: self.p1.x + 0x10_0000, y: self.p1.y + 0x10_0000, z: self.p1.z + 0x10_0000 },
        }
    }
}

/// The cube's padded bounding box.
pub open spec fn cube_bbox(c: Cube) -> crate::aabb::AABB {
    crate::aabb::AABB {
        min: Vec3 { x: (c.p0.x - 0x10_0000) as i64, y: (c.p0.y - 0x10_0000) as i64, z: (c.p0.z - 0x10_0000) as i64 },
        max: Vec3 { x: (c.p1.x + 0x10_0000) as i64, y: (c.p1.y + 0x10_0000) as i64, z: (c.p1.z + 0x10_0000) as i64 },
    }
}

/// One mantissa-normalisation pass: values below the top octave are
/// doubled, collecting the logarithm of two for each doubling.
pub open spec fn octave_steps(v: int, acc: int, k: int) -> (int, int)
    decreases k,
{
    if k <= 0 {
        (v, acc)
    } else if v < 32768 {
        octave_steps(2 * v, acc + 45426, k - 1)
    } else {
        octave_steps(v, acc, k - 1)
    }
}

/// The approximation of `-ln(u / ONE) * ONE` on `(0, 1]`: the octave
/// count times the logarithm of two, plus a truncated Mercator series
/// on the remaining mantissa.
pub open spec fn neg_log_model(u: int) -> int {
    let n = octave_steps(u, 0, 16);
    let w = 65536 - n.0;
    let w2 = fmul(w, w);
    let w3 = fmul(w2, w);
    n.1 + w + fmul(w2, 32768) + fmul(w3, 21845)
}

/// The free-path logarithm: exactly `neg_log_model`, and within the
/// range the medium's arithmetic needs.
fn neg_log_unit(u: i64) -> (r: i64)
    requires
        1 <= u <= 65536,
    ensures
        r as int == neg_log_model(u as int),
        0 <= r <= 1048576,
{
    let mut v: i64 = u;
    let mut acc: i64 = 0;
    let mut i: u8 = 0;
    while i < 16
        invariant
            1 <= v <= 65536,
            0 <= acc,
            acc <= 45426 * (i as int),
            i <= 16,
            octave_steps(v as int, acc as int, 16 - i as int) == octave_steps(u as int, 0, 16),
        decreases 16 - i,
    {
        if v < 32768 {
            v = v * 2;
            acc = acc + 45426;
        }
        i = i + 1;
    }
    let w: i64 = 65536 - v;
    proof {
        crate::vec3::lemma_fmul_fits(w as int, w as int, 65535, 65535);
        vstd::arithmetic::div_mod::lemma_div_is_ordered(0, w * w, 65536);
        assert(w * w >= 0) by (nonlinear_arith)
            requires
                w >= 0,
        ;
        assert(0int / 65536 == 0);
    }
    let w2 = crate::fixed::mul_fx(w, w);
    proof {
        crate::vec3::lemma_fmul_fits(w2 as int, w as int, 65535, 65535);
        assert(w2 * w >= 0) by (nonlinear_arith)
            requires
                w2 >= 0,
                w >= 0,
        ;
        vstd::arithmetic::div_mod::lemma_div_is_ordered(0, w2 * w, 65536);
    }
    let w3 = crate::fixed::mul_fx(w2, w);
    proof {
        crate::vec3::lemma_fmul_fits(w2 as int, 32768, 65535, 32768);
        assert(w2 * 32768 >= 0);
        vstd::arithmetic::div_mod::lemma_div_is_ordered(0, w2 * 32768, 65536);
        crate::vec3::lemma_fmul_fits(w3 as int, 21845, 65535, 21845);
        assert(w3 * 21845 >= 0);
        vstd::arithmetic::div_mod::lemma_div_is_ordered(0, w3 * 21845, 65536);
    }
    let h2 = crate::fixed::mul_fx(w2, 32768);
    let h3 = crate::fixed::mul_fx(w3, 21845);
    acc + w + h2 + h3
}

impl Hitable {
    /// Where the ray meets this hitable inside `[t_min, t_max]`.
    ///
    /// On a media-free tree the result is exactly `model`; a volumetric
    /// medium additionally consumes randomness, and then the contract
    /// holds of every outcome: any record returned stays in range and
    /// carries the medium's phase material. A medium of density zero
    /// never interacts.
    #[verifier::rlimit(100)]
    pub fn hit(&self, ra: &Ray, t_min: i64, t_max: i64) -> (res: Option<HitResult>)
        requires
            self.wf(),
            ray_wf(*ra),
            dir_ok(ra.direction),
            -0x100_0000_0000 <= t_min <= t_max <= 0x100_0000_0000,
        ensures
            self.media_free() ==> omatch(res, self.model(*ra, t_min as int, t_max as int)),
            res is Some ==> hit_wf(res->0) && t_min <= res->0.t <= t_max,
            forall|n: int| #[trigger] self.mats_in(n) && res is Some ==> (res->0.mat as int) < n,
            *self matches Hitable::ConstantMedium(m) ==> (m.density == 0 ==> res is None),
            *self matches Hitable::ConstantMedium(m) ==> (medium_rejects(
                m,
                *ra,
                t_min as int,
                t_max as int,
            ) ==> res is None),
            *self matches Hitable::ConstantMedium(m) ==> (m.boundary.media_free() && res is Some
                ==> medium_window(m, *ra, t_min as int, t_max as int) is Some && (medium_window(
                m,
                *ra,
                t_min as int,
                t_max as int,
            )->0).0 <= res->0.t && res->0.t <= (medium_window(
                m,
                *ra,
                t_min as int,
                t_max as int,
            )->0).1),
        decreases *self,
    {
        let res = match self {
            Hitable::Sphere(s) => s.hit(ra, t_min, t_max),
            Hitable::XyRect(r) => r.hit(ra, t_min, t_max),
            Hitable::XzRect(r) => r.hit(ra, t_min, t_max),
            Hitable::YzRect(r) => r.hit(ra, t_min, t_max),
            Hitable::Cube(c) => c.hit(ra, t_min, t_max),
            Hitable::Translate(tr) => hit_translate(tr, ra, t_min, t_max),
            Hitable::RotateY(ro) => hit_rotate_y(ro, ra, t_min, t_max),
            Hitable::ConstantMedium(m) => hit_medium(m, ra, t_min, t_max),
            Hitable::Node(n) => hit_node(n, ra, t_min, t_max),
        };
        proof {
            assert forall|n: int| #[trigger] self.mats_in(n) && res is Some implies (
            res->0.mat as int) < n by {
                if self.mats_in(n) && res is Some {
                    match *self {
                        Hitable::Sphere(s) => {
                            assert((s.mat as int) < n);
                        },
                        Hitable::XyRect(r) => {
                            assert((r.mat as int) < n);
                        },
                        Hitable::XzRect(r) => {
                            assert((r.mat as int) < n);
                        },
                        Hitable::YzRect(r) => {
                            assert((r.mat as int) < n);
                        },
                        Hitable::Cube(c) => {
                            assert((c.mat as int) < n);
                        },
                        Hitable::Translate(t) => {
                            assert(t.child.mats_in(n));
                        },
                        Hitable::RotateY(r) => {
                            assert(r.child.mats_in(n));
                        },
                        Hitable::ConstantMedium(m) => {
                            assert((m.phase as int) < n);
                        },
                        Hitable::Node(nd) => {
                            assert(nd.left.mats_in(n) && nd.right.mats_in(n));
                        },
                    }
                }
            }
        }
        res
    }
}

/// The `Translate` case of the hit routine.
fn hit_translate(tr: &Translate, ra: &Ray, t_min: i64, t_max: i64) -> (res: Option<HitResult>)
    requires
        tr.offset.bounded(0x10_0000_0000),
        tr.child.wf(),
        ray_wf(*ra),
        dir_ok(ra.direction),
        -0x100_0000_0000 <= t_min <= t_max <= 0x100_0000_0000,
    ensures
        tr.child.media_free() ==> omatch(res, translate_model(*tr, *ra, t_min as int, t_max as int)),
        res is Some ==> hit_wf(res->0) && t_min <= res->0.t <= t_max,
        forall|n: int| #[trigger] tr.child.mats_in(n) && res is Some ==> (res->0.mat as int) < n,
    decreases *tr,
{
    let moved = Ray {
        origin: Vec3 {
            x: clamp_to(ra.origin.x - tr.offset.x, 0x40_0000_0000),
            y: clamp_to(ra.origin.y - tr.offset.y, 0x40_0000_0000),
            z: clamp_to(ra.origin.z - tr.offset.z, 0x40_0000_0000),
        },
        direction: ra.direction,
    };
    proof {
        assert(moved == moved_ray_of(*ra, tr.offset));
    }
    match tr.child.hit(&moved, t_min, t_max) {
        None => None,
        Some(h) => {
            let p = Vec3 {
                x: clamp_to(h.p.x + tr.offset.x, 0x4100_0000_0000_0000),
                y: clamp_to(h.p.y + tr.offset.y, 0x4100_0000_0000_0000),
                z: clamp_to(h.p.z + tr.offset.z, 0x4100_0000_0000_0000),
            };
            let mut normal = h.normal;
            let mut front_face = h.front_face;
            HitResult::set_face_normal(&moved, &mut normal, &mut front_face);
            Some(HitResult { t: h.t, p, fu: h.fu, fv: h.fv, normal, front_face, mat: h.mat })
        },
    }
}

/// The `RotateY` case of the hit routine.
fn hit_rotate_y(ro: &RotateY, ra: &Ray, t_min: i64, t_max: i64) -> (res: Option<HitResult>)
    requires
        -65536 <= ro.sin_theta <= 65536,
        -65536 <= ro.cos_theta <= 65536,
        ro.child.wf(),
        ray_wf(*ra),
        dir_ok(ra.direction),
        -0x100_0000_0000 <= t_min <= t_max <= 0x100_0000_0000,
    ensures
        ro.child.media_free() ==> omatch(res, rotate_y_model(*ro, *ra, t_min as int, t_max as int)),
        res is Some ==> hit_wf(res->0) && t_min <= res->0.t <= t_max,
        forall|n: int| #[trigger] ro.child.mats_in(n) && res is Some ==> (res->0.mat as int) < n,
    decreases *ro,
{
    let s = ro.sin_theta;
    let c = ro.cos_theta;
    proof {
        lemma_rot_fits(s as int, c as int);
    }
    let ox = clamp_to(
        crate::fixed::mul_fx(c, ra.origin.x) - crate::fixed::mul_fx(s, ra.origin.z),
        0x40_0000_0000,
    );
    let oz = clamp_to(
        crate::fixed::mul_fx(s, ra.origin.x) + crate::fixed::mul_fx(c, ra.origin.z),
        0x40_0000_0000,
    );
    let dx = clamp_to(
        crate::fixed::mul_fx(c, ra.direction.x) - crate::fixed::mul_fx(s, ra.direction.z),
        0x10_0000_0000,
    );
    let dz = clamp_to(
        crate::fixed::mul_fx(s, ra.direction.x) + crate::fixed::mul_fx(c, ra.direction.z),
        0x10_0000_0000,
    );
    let rotated = Ray {
        origin: Vec3 { x: ox, y: ra.origin.y, z: oz },
        direction: Vec3 { x: dx, y: ra.direction.y, z: dz },
    };
    proof {
        assert(rotated == rotated_ray_of(*ro, *ra));
    }
    if rotated.direction.squared_length() < 1 {
        proof {
            lemma_nsq_small(rotated.direction);
        }
        return None;
    }
    proof {
        lemma_nsq_large(rotated.direction);
    }
    match ro.child.hit(&rotated, t_min, t_max) {
        None => None,
        Some(h) => {
            let px = clamp_to(h.p.x, 0x1000_0000_0000_0000);
            let pz = clamp_to(h.p.z, 0x1000_0000_0000_0000);
            proof {
                lemma_rot_back_fits(s as int, c as int);
                crate::vec3::lemma_fmul_fits(c as int, h.normal.x as int, 65536, 131072);
                crate::vec3::lemma_fmul_fits(s as int, h.normal.z as int, 65536, 131072);
                crate::vec3::lemma_fmul_fits(c as int, h.normal.z as int, 65536, 131072);
                crate::vec3::lemma_fmul_fits(s as int, h.normal.x as int, 65536, 131072);
            }
            let wx = crate::fixed::mul_fx(c, px) + crate::fixed::mul_fx(s, pz);
            let wz = crate::fixed::mul_fx(c, pz) - crate::fixed::mul_fx(s, px);
            let nx = crate::fixed::mul_fx(c, h.normal.x) + crate::fixed::mul_fx(s, h.normal.z);
            let nz = crate::fixed::mul_fx(c, h.normal.z) - crate::fixed::mul_fx(s, h.normal.x);
            let mut normal = Vec3 { x: clamp_to(nx, 131072), y: h.normal.y, z: clamp_to(nz, 131072) };
            let mut front_face = h.front_face;
            HitResult::set_face_normal(&rotated, &mut normal, &mut front_face);
            Some(
                HitResult {
                    t: h.t,
                    p: Vec3 { x: wx, y: h.p.y, z: wz },
                    fu: h.fu,
                    fv: h.fv,
                    normal,
                    front_face,
                    mat: h.mat,
                },
            )
        },
    }
}

/// The rejections the medium decides before any randomness is drawn,
/// readable off its boundary's hit model: no entry crossing, an entry
/// too close to the far limit for the exit probe, no exit crossing, or
/// an empty clamped interval.
pub open spec fn medium_rejects(m: ConstantMedium, ra: Ray, tmin: int, tmax: int) -> bool {
    m.boundary.media_free() && match m.boundary.model(ra, -0x100_0000_0000, 0x100_0000_0000) {
        None => true,
        Some(g1) => g1.t >= 0x100_0000_0000 - 7 || match m.boundary.model(
            ra,
            g1.t + 7,
            0x100_0000_0000,
        ) {
            None => true,
            Some(g2) => {
                let t1 = if g1.t > tmin {
                    g1.t
                } else {
                    tmin
                };
                let t2 = if g2.t < tmax {
                    g2.t
                } else {
                    tmax
                };
                t1 >= t2
            },
        },
    }
}

/// The clamped interval a medium interaction is confined to, read off
/// the boundary's hit model: entry at the first crossing, no earlier
/// than `tmin` nor than zero; exit at the second crossing, no later
/// than `tmax`. `None` when either boundary probe misses.
pub open spec fn medium_window(m: ConstantMedium, ra: Ray, tmin: int, tmax: int) -> Option<
    (int, int),
> {
    match m.boundary.model(ra, -0x100_0000_0000, 0x100_0000_0000) {
        None => None,
        Some(g1) => if g1.t >= 0x100_0000_0000 - 7 {
            None
        } else {
            match m.boundary.model(ra, g1.t + 7, 0x100_0000_0000) {
                None => None,
                Some(g2) => {
                    let t1 = if g1.t > tmin {
                        g1.t
                    } else {
                        tmin
                    };
                    let t2 = if g2.t < tmax {
                        g2.t
                    } else {
                        tmax
                    };
                    let t1c = if t1 < 0 {
                        0
                    } else {
                        t1
                    };
                    Some((t1c, t2))
                },
            }
        },
    }
}

/// The `ConstantMedium` case of the hit routine: two boundary
/// crossings, then an exponentially distributed free path.
fn hit_medium(m: &ConstantMedium, ra: &Ray, t_min: i64, t_max: i64) -> (res: Option<HitResult>)
    requires
        m.density >= 0,
        m.boundary.wf(),
        ray_wf(*ra),
        dir_ok(ra.direction),
        -0x100_0000_0000 <= t_min <= t_max <= 0x100_0000_0000,
    ensures
        res is Some ==> hit_wf(res->0) && t_min <= res->0.t <= t_max && res->0.mat == m.phase,
        m.density == 0 ==> res is None,
        medium_rejects(*m, *ra, t_min as int, t_max as int) ==> res is None,
        m.boundary.media_free() && res is Some ==> medium_window(
            *m,
            *ra,
            t_min as int,
            t_max as int,
        ) is Some && (medium_window(*m, *ra, t_min as int, t_max as int)->0).0 <= res->0.t
            && res->0.t <= (medium_window(*m, *ra, t_min as int, t_max as int)->0).1,
    decreases *m,
{
    if m.density <= 0 {
        return None;
    }
    let rec1 = match m.boundary.hit(ra, -0x100_0000_0000, 0x100_0000_0000) {
        None => {
            return None;
        },
        Some(r1) => r1,
    };
    if rec1.t >= 0x100_0000_0000 - 7 {
        return None;
    }
    let rec2 = match m.boundary.hit(ra, rec1.t + 7, 0x100_0000_0000) {
        None => {
            return None;
        },
        Some(r2) => r2,
    };
    let mut t1 = if rec1.t > t_min {
        rec1.t
    } else {
        t_min
    };
    let t2 = if rec2.t < t_max {
        rec2.t
    } else {
        t_max
    };
    if t1 >= t2 {
        return None;
    }
    if t1 < 0 {
        t1 = 0;
    }
    let ray_length = ra.direction.length();
    proof {
        crate::vec3::lemma_fmul_fits(
            t2 - t1 as int,
            ray_length as int,
            0x200_0000_0000,
            0x20_0000_0000,
        );
    }
    let distance_inside = crate::fixed::mul_fx(t2 - t1, ray_length);
    let u = crate::random::random_double();
    if u == 0 {
        return None;
    }
    let nl = neg_log_unit(u);
    proof {
        crate::fixed::lemma_floor_div_small((nl as int) * 65536, m.density as int, 0x10_0000_0000_0000);
        vstd::arithmetic::div_mod::lemma_div_is_ordered(0, (nl as int) * 65536, m.density as int);
        assert(0int / (m.density as int) == 0) by {
            vstd::arithmetic::div_mod::lemma_fundamental_div_mod_converse(0, m.density as int, 0, 0);
        }
    }
    let hd = crate::fixed::div_fx(nl, m.density);
    if hd > distance_inside {
        return None;
    }
    proof {
        lemma_medium_step(hd as int, t2 - t1 as int, ray_length as int, distance_inside as int);
    }
    let dt = crate::fixed::div_fx(hd, ray_length);
    let t = t1 + dt;
    Some(
        HitResult {
            t,
            p: ra.at(t),
            fu: 0,
            fv: 0,
            normal: Vec3 { x: 65536, y: 0, z: 0 },
            front_face: true,
            mat: m.phase,
        },
    )
}

/// The `BVHNode` case of the hit routine: prune on the cached box,
/// then keep the closer child's record.
fn hit_node(n: &BVHNode, ra: &Ray, t_min: i64, t_max: i64) -> (res: Option<HitResult>)
    requires
        crate::aabb::aabb_bounded(n.bbox),
        n.left.wf(),
        n.right.wf(),
        ray_wf(*ra),
        dir_ok(ra.direction),
        -0x100_0000_0000 <= t_min <= t_max <= 0x100_0000_0000,
    ensures
        n.left.media_free() && n.right.media_free() ==> omatch(
            res,
            node_model(*n, *ra, t_min as int, t_max as int),
        ),
        res is Some ==> hit_wf(res->0) && t_min <= res->0.t <= t_max,
        forall|k: int|
            #[trigger] n.left.mats_in(k) && n.right.mats_in(k) && res is Some ==> (
            res->0.mat as int) < k,
    decreases *n,
{
    if !n.bbox.hit(ra, t_min, t_max) {
        return None;
    }
    let lo = n.left.hit(ra, t_min, t_max);
    let ro = n.right.hit(ra, t_min, t_max);
    match lo {
        Some(lh) => match ro {
            Some(rh) => if lh.t < rh.t {
                Some(lh)
            } else {
                Some(rh)
            },
            None => Some(lh),
        },
        None => ro,
    }
}

/// The solid-angle density of striking the horizontal rectangle from
/// `origin` along `dir`: the squared distance to the crossing over the
/// cosine times the area, with every degenerate quantity reporting
/// zero.
pub open spec fn xz_rect_pdf_model(rect: XzRect, origin: Vec3, dir: Vec3) -> int {
    if crate::vec3::nsq(dir) < 65536 {
        0
    } else {
        match xz_rect_hit_model(rect, Ray { origin, direction: dir }, 66, 0x100_0000_0000) {
            None => 0,
            Some(g) => {
                let area = crate::fixed::clamp64(fmul(rect.x1 - rect.x0, rect.z1 - rect.z0));
                if area <= 0 {
                    0
                } else {
                    let dsq = crate::fixed::clamp64(
                        fmul(crate::fixed::clamp64(fmul(g.t, g.t)), crate::vec3::sdot(dir, dir)),
                    );
                    if dsq < 0 {
                        0
                    } else {
                        let ay = if dir.y < 0 {
                            -dir.y as int
                        } else {
                            dir.y as int
                        };
                        let cosine = fdiv(ay, crate::vec3::norm_of(dir));
                        let den = crate::fixed::clamp64(fmul(cosine, area));
                        if den <= 0 {
                            0
                        } else {
                            crate::fixed::clamp64(fdiv(dsq, den))
                        }
                    }
                }
            },
        }
    }
}

impl Hitable {
    /// The solid-angle density of striking this hitable from `origin`
    /// along `dir`. Light sampling targets the axis-aligned rectangle
    /// in the horizontal plane, where the density is exactly
    /// `xz_rect_pdf_model`; every other shape reports zero.
    pub fn pdf_value(&self, origin: &Vec3, dir: &Vec3) -> (r: i64)
        requires
            self.wf(),
            origin.bounded(0x40_0000_0000),
            dir.bounded(0x10_0000_0000),
        ensures
            r >= 0,
            forall|rect: XzRect|
                *self == Hitable::XzRect(rect) ==> r as int == xz_rect_pdf_model(
                    rect,
                    *origin,
                    *dir,
                ),
            !(*self matches Hitable::XzRect(_)) ==> r == 0,
    {
        match self {
            Hitable::XzRect(rect) => {
                if dir.squared_length() < 1 {
                    return 0;
                }
                proof {
                    lemma_nsq_large(*dir);
                }
                let ray = Ray { origin: *origin, direction: *dir };
                match rect.hit(&ray, 66, 0x100_0000_0000) {
                    None => 0,
                    Some(h) => {
                        let area = crate::fixed::mul_fx_clamp(rect.x1 - rect.x0, rect.z1 - rect.z0);
                        if area <= 0 {
                            return 0;
                        }
                        let dsq = crate::fixed::mul_fx_clamp(
                            crate::fixed::mul_fx_clamp(h.t, h.t),
                            dir.squared_length(),
                        );
                        if dsq < 0 {
                            return 0;
                        }
                        let len = dir.length();
                        let ay = if dir.y < 0 {
                            -dir.y
                        } else {
                            dir.y
                        };
                        proof {
                            crate::vec3::lemma_norm_dominates(*dir);
                            crate::fixed::lemma_fdiv_unit(ay as int, len as int);
                            vstd::arithmetic::div_mod::lemma_div_is_ordered(
                                0,
                                (ay as int) * 65536,
                                len as int,
                            );
                            assert(0int / (len as int) == 0) by {
                                vstd::arithmetic::div_mod::lemma_fundamental_div_mod_converse(
                                    0,
                                    len as int,
                                    0,
                                    0,
                                );
                            }
                            assert((ay as int) * 65536 >= 0) by (nonlinear_arith)
                                requires
                                    ay >= 0,
                            ;
                        }
                        let cosine = crate::fixed::div_fx(ay, len);
                        let den = crate::fixed::mul_fx_clamp(cosine, area);
                        if den <= 0 {
                            return 0;
                        }
                        let v = crate::fixed::div_fx_clamp(dsq, den);
                        proof {
                            vstd::arithmetic::div_mod::lemma_div_is_ordered(
                                0,
                                (dsq as int) * 65536,
                                den as int,
                            );
                            assert(0int / (den as int) == 0) by {
                                vstd::arithmetic::div_mod::lemma_fundamental_div_mod_converse(
                                    0,
                                    den as int,
                                    0,
                                    0,
                                );
                            }
                            assert((dsq as int) * 65536 >= 0) by (nonlinear_arith)
                                requires
                                    dsq >= 0,
                            ;
                        }
                        v
                    },
                }
            },
            _ => 0,
        }
    }

    /// A direction from `origin` toward a uniformly drawn point of the
    /// shape; shapes that are not sampled as lights return a fixed
    /// direction.
    pub fn random(&self, origin: &Vec3) -> (r: Vec3)
        requires
            self.wf(),
            origin.bounded(0x40_0000_0000),
        ensures
            r.bounded(0x10_0000_0000),
            forall|rect: XzRect|
                *self == Hitable::XzRect(rect) ==> exists|px: int, pz: int|
                    #[trigger] rect_sample_dir(rect, *origin, px, pz, r),
            !(*self matches Hitable::XzRect(_)) ==> r == (Vec3 { x: 65536i64, y: 0i64, z: 0i64 }),
    {
        match self {
            Hitable::XzRect(rect) => {
                let px = crate::random::random_double_range(rect.x0, rect.x1);
                let pz = crate::random::random_double_range(rect.z0, rect.z1);
                let r = Vec3 {
                    x: clamp_to(px - origin.x, 0x10_0000_0000),
                    y: clamp_to(rect.k - origin.y, 0x10_0000_0000),
                    z: clamp_to(pz - origin.z, 0x10_0000_0000),
                };
                proof {
                    assert(rect_sample_dir(*rect, *origin, px as int, pz as int, r));
                }
                r
            },
            _ => Vec3 { x: 65536, y: 0, z: 0 },
        }
    }
}

/// Law: translating a hitable, striking it, and shifting the returned
/// point back by the offset recovers exactly the hit of the
/// untranslated child against the shifted ray — same parameter, same
/// surface coordinates, same material. The hypotheses keep the shifted
/// origin and the returned point inside the ranges where the
/// coordinate clamps are the identity.
pub proof fn lemma_translate_round_trip(t: Translate, ra: Ray, tmin: int, tmax: int)
    requires
        -0x40_0000_0000 <= ra.origin.x - t.offset.x <= 0x40_0000_0000,
        -0x40_0000_0000 <= ra.origin.y - t.offset.y <= 0x40_0000_0000,
        -0x40_0000_0000 <= ra.origin.z - t.offset.z <= 0x40_0000_0000,
        (t.child.model(moved_ray_of(ra, t.offset), tmin, tmax) matches Some(g) ==> {
            &&& -0x4100_0000_0000_0000 <= g.p.0 + t.offset.x <= 0x4100_0000_0000_0000
            &&& -0x4100_0000_0000_0000 <= g.p.1 + t.offset.y <= 0x4100_0000_0000_0000
            &&& -0x4100_0000_0000_0000 <= g.p.2 + t.offset.z <= 0x4100_0000_0000_0000
        }),
    ensures
        ({
            let inner = t.child.model(moved_ray_of(ra, t.offset), tmin, tmax);
            let outer = translate_model(t, ra, tmin, tmax);
            &&& (outer is Some <==> inner is Some)
            &&& (outer matches Some(o) ==> {
                let g = inner->0;
                &&& o.p.0 - t.offset.x == g.p.0
                &&& o.p.1 - t.offset.y == g.p.1
                &&& o.p.2 - t.offset.z == g.p.2
                &&& o.t == g.t
                &&& o.fu == g.fu
                &&& o.fv == g.fv
                &&& o.mat == g.mat
            })
        }),
{
}

impl Hitable {
    /// The hierarchy's fold with the box test removed: each node simply
    /// keeps the closer of its children's records.
    pub open spec fn unpruned_model(self, ra: Ray, tmin: int, tmax: int) -> Option<GHit>
        decreases self,
    {
        match self {
            Hitable::Node(n) => {
                let lo = n.left.unpruned_model(ra, tmin, tmax);
                let ro = n.right.unpruned_model(ra, tmin, tmax);
                match lo {
                    Some(lh) => match ro {
                        Some(rh) => if lh.t < rh.t {
                            lo
                        } else {
                            ro
                        },
                        None => lo,
                    },
                    None => ro,
                }
            },
            _ => self.model(ra, tmin, tmax),
        }
    }

    /// Every node's cached box admits the ray whenever either subtree
    /// would report a hit: the soundness condition of the pruning step.
    pub open spec fn covered(self, ra: Ray, tmin: int, tmax: int) -> bool
        decreases self,
    {
        match self {
            Hitable::Node(n) => {
                &&& (n.left.unpruned_model(ra, tmin, tmax) is Some || n.right.unpruned_model(
                    ra,
                    tmin,
                    tmax,
                ) is Some ==> crate::aabb::aabb_hit(n.bbox, ra, tmin, tmax))
                &&& n.left.covered(ra, tmin, tmax)
                &&& n.right.covered(ra, tmin, tmax)
            },
            _ => true,
        }
    }

    /// Law: on a tree whose boxes cover their subtrees' hits, the
    /// hierarchy's traversal returns exactly what the same tree would
    /// return with no pruning at all — the closest record over the
    /// leaves (ties resolved toward the right child). The box test
    /// never discards a hit.
    pub proof fn lemma_bvh_prune_sound(self, ra: Ray, tmin: int, tmax: int)
        requires
            self.covered(ra, tmin, tmax),
        ensures
            self.model(ra, tmin, tmax) == self.unpruned_model(ra, tmin, tmax),
        decreases self,
    {
        match self {
            Hitable::Node(n) => {
                n.left.lemma_bvh_prune_sound(ra, tmin, tmax);
                n.right.lemma_bvh_prune_sound(ra, tmin, tmax);
                if !crate::aabb::aabb_hit(n.bbox, ra, tmin, tmax) {
                    assert(n.left.unpruned_model(ra, tmin, tmax) is None);
                    assert(n.right.unpruned_model(ra, tmin, tmax) is None);
                }
            },
            _ => {},
        }
    }
}

/// The direction from `origin` toward one uniformly drawn point of a
/// horizontal rectangle, each component clamped into the direction
/// bound.
pub open spec fn rect_sample_dir(rect: XzRect, origin: Vec3, px: int, pz: int, r: Vec3) -> bool {
    &&& rect.x0 <= px <= rect.x1
    &&& rect.z0 <= pz <= rect.z1
    &&& sv(r) == (
        clampi(px - origin.x, 0x10_0000_0000),
        clampi(rect.k - origin.y, 0x10_0000_0000),
        clampi(pz - origin.z, 0x10_0000_0000),
    )
}

/// The closer of two optional records; on a tie, the second one.
pub open spec fn pick_closer(a: Option<GHit>, b: Option<GHit>) -> Option<GHit> {
    match a {
        Some(ah) => match b {
            Some(bh) => if ah.t < bh.t {
                a
            } else {
                b
            },
            None => a,
        },
        None => b,
    }
}

/// The best hit over a list of hitables, every one examined over the
/// same full interval; ties go to the later item.
pub open spec fn best_of(items: Seq<Hitable>, ra: Ray, tmin: int, tmax: int) -> Option<GHit>
    decreases items.len(),
{
    if items.len() == 0 {
        None
    } else {
        pick_closer(
            best_of(items.drop_last(), ra, tmin, tmax),
            items.last().model(ra, tmin, tmax),
        )
    }
}

/// Picking the closer record is associative: it selects the last
/// occurrence of the minimal parameter however the list is bracketed.
proof fn lemma_pick_assoc(a: Option<GHit>, b: Option<GHit>, c: Option<GHit>)
    ensures
        pick_closer(pick_closer(a, b), c) == pick_closer(a, pick_closer(b, c)),
{
}

/// The best over a concatenation is the closer of the bests.
proof fn lemma_best_of_concat(s1: Seq<Hitable>, s2: Seq<Hitable>, ra: Ray, tmin: int, tmax: int)
    ensures
        best_of(s1 + s2, ra, tmin, tmax) == pick_closer(
            best_of(s1, ra, tmin, tmax),
            best_of(s2, ra, tmin, tmax),
        ),
    decreases s2.len(),
{
    if s2.len() == 0 {
        assert(s1 + s2 =~= s1);
    } else {
        lemma_best_of_concat(s1, s2.drop_last(), ra, tmin, tmax);
        assert((s1 + s2).drop_last() =~= s1 + s2.drop_last());
        assert((s1 + s2).last() == s2.last());
        lemma_pick_assoc(
            best_of(s1, ra, tmin, tmax),
            best_of(s2.drop_last(), ra, tmin, tmax),
            s2.last().model(ra, tmin, tmax),
        );
    }
}

impl Hitable {
    /// The primitives at the leaves of this tree, left to right.
    pub open spec fn leaves(self) -> Seq<Hitable>
        decreases self,
    {
        match self {
            Hitable::Node(n) => n.left.leaves() + n.right.leaves(),
            _ => seq![self],
        }
    }

    /// The fold without pruning is exactly the best over the leaves.
    proof fn lemma_unpruned_is_best(self, ra: Ray, tmin: int, tmax: int)
        ensures
            self.unpruned_model(ra, tmin, tmax) == best_of(self.leaves(), ra, tmin, tmax),
        decreases self,
    {
        match self {
            Hitable::Node(n) => {
                n.left.lemma_unpruned_is_best(ra, tmin, tmax);
                n.right.lemma_unpruned_is_best(ra, tmin, tmax);
                lemma_best_of_concat(n.left.leaves(), n.right.leaves(), ra, tmin, tmax);
                assert(self.unpruned_model(ra, tmin, tmax) == pick_closer(
                    n.left.unpruned_model(ra, tmin, tmax),
                    n.right.unpruned_model(ra, tmin, tmax),
                ));
                assert(self.leaves() == n.left.leaves() + n.right.leaves());
            },
            _ => {
                assert(self.leaves() == seq![self]);
                assert(self.leaves().len() == 1);
                assert(self.leaves().drop_last() =~= Seq::<Hitable>::empty());
                assert(self.leaves().last() == self);
                assert(best_of(Seq::<Hitable>::empty(), ra, tmin, tmax) is None);
                assert(self.unpruned_model(ra, tmin, tmax) == self.model(ra, tmin, tmax));
            },
        }
    }

    /// Law: on a tree whose boxes cover their subtrees' hits, the
    /// hierarchy's traversal returns the same closest record —
    /// parameter, point, surface coordinates, material — as examining
    /// every leaf primitive over the full interval, with ties resolved
    /// toward the later leaf.
    pub proof fn lemma_bvh_closest_hit(self, ra: Ray, tmin: int, tmax: int)
        requires
            self.covered(ra, tmin, tmax),
        ensures
            self.model(ra, tmin, tmax) == best_of(self.leaves(), ra, tmin, tmax),
    {
        self.lemma_bvh_prune_sound(ra, tmin, tmax);
        self.lemma_unpruned_is_best(ra, tmin, tmax);
    }

    /// Every hierarchy node's cached box is exactly the surrounding box
    /// of its children's boxes, all the way down; leaves carry no
    /// obligation. The hierarchy constructor establishes this.
    pub open spec fn boxes_nested(self) -> bool
        decreases self,
    {
        match self {
            Hitable::Node(n) => {
                &&& n.left.bbox_model() is Some
                &&& n.right.bbox_model() is Some
                &&& n.bbox == crate::aabb::surrounding_of(
                    n.left.bbox_model()->0,
                    n.right.bbox_model()->0,
                )
                &&& n.left.boxes_nested()
                &&& n.right.boxes_nested()
            },
            _ => true,
        }
    }

    /// Each leaf that would report a hit admits the ray through its own
    /// box: the per-primitive half of the pruning-soundness hypothesis,
    /// the only part the box nesting cannot supply.
    pub open spec fn leaf_covered(self, ra: Ray, tmin: int, tmax: int) -> bool
        decreases self,
    {
        match self {
            Hitable::Node(n) => n.left.leaf_covered(ra, tmin, tmax) && n.right.leaf_covered(
                ra,
                tmin,
                tmax,
            ),
            _ => self.model(ra, tmin, tmax) is Some ==> self.bbox_model() is Some
                && crate::aabb::aabb_hit(self.bbox_model()->0, ra, tmin, tmax),
        }
    }

    /// On a properly nested tree, per-leaf coverage lifts to full
    /// coverage: any subtree that would report a hit admits the ray
    /// through every box above it.
    pub proof fn lemma_nested_coverage(self, ra: Ray, tmin: int, tmax: int)
        requires
            self.boxes_nested(),
            self.leaf_covered(ra, tmin, tmax),
        ensures
            self.covered(ra, tmin, tmax),
            self.unpruned_model(ra, tmin, tmax) is Some ==> self.bbox_model() is Some
                && crate::aabb::aabb_hit(self.bbox_model()->0, ra, tmin, tmax),
        decreases self,
    {
        match self {
            Hitable::Node(n) => {
                n.left.lemma_nested_coverage(ra, tmin, tmax);
                n.right.lemma_nested_coverage(ra, tmin, tmax);
                let lb = n.left.bbox_model()->0;
                let rb = n.right.bbox_model()->0;
                crate::aabb::lemma_surrounding_contains_boxes(lb, rb);
                if n.left.unpruned_model(ra, tmin, tmax) is Some {
                    crate::aabb::lemma_aabb_hit_widens(lb, n.bbox, ra, tmin, tmax);
                }
                if n.right.unpruned_model(ra, tmin, tmax) is Some {
                    crate::aabb::lemma_aabb_hit_widens(rb, n.bbox, ra, tmin, tmax);
                }
            },
            _ => {},
        }
    }

    /// The applicable form of the closest-hit law: a tree with nested
    /// boxes — what the hierarchy constructor builds — returns the
    /// best hit over its leaves wherever the leaves' own boxes admit
    /// their hits.
    pub proof fn lemma_bvh_built_closest_hit(self, ra: Ray, tmin: int, tmax: int)
        requires
            self.boxes_nested(),
            self.leaf_covered(ra, tmin, tmax),
        ensures
            self.model(ra, tmin, tmax) == best_of(self.leaves(), ra, tmin, tmax),
    {
        self.lemma_nested_coverage(ra, tmin, tmax);
        self.lemma_bvh_closest_hit(ra, tmin, tmax);
    }
}

impl Hitable {
    /// Every leaf of the tree is one of the plain primitives: a sphere,
    /// an axis-aligned rectangle, or a cube.
    pub open spec fn primitive_leaves(self) -> bool
        decreases self,
    {
        match self {
            Hitable::Node(n) => n.left.primitive_leaves() && n.right.primitive_leaves(),
            Hitable::Sphere(_) => true,
            Hitable::XyRect(_) => true,
            Hitable::XzRect(_) => true,
            Hitable::YzRect(_) => true,
            Hitable::Cube(_) => true,
            Hitable::Translate(_) => false,
            Hitable::RotateY(_) => false,
            Hitable::ConstantMedium(_) => false,
        }
    }

    /// On a tree of plain primitive leaves, every leaf's own box admits
    /// the hits it reports: the coverage hypothesis holds outright.
    pub proof fn lemma_primitive_leaves_covered(self, ra: Ray, tmin: int, tmax: int)
        requires
            self.wf(),
            self.primitive_leaves(),
            ra.direction.bounded(0x10_0000_0000),
        ensures
            self.leaf_covered(ra, tmin, tmax),
        decreases self,
    {
        match self {
            Hitable::Node(n) => {
                n.left.lemma_primitive_leaves_covered(ra, tmin, tmax);
                n.right.lemma_primitive_leaves_covered(ra, tmin, tmax);
            },
            Hitable::Sphere(s) => {
                if sphere_hit_model(s, ra, tmin, tmax) is Some {
                    lemma_sphere_covered(s, ra, tmin, tmax);
                }
            },
            Hitable::XyRect(r) => {
                if xy_rect_hit_model(r, ra, tmin, tmax) is Some {
                    lemma_xy_rect_covered(r, ra, tmin, tmax);
                }
            },
            Hitable::XzRect(r) => {
                if xz_rect_hit_model(r, ra, tmin, tmax) is Some {
                    lemma_xz_rect_covered(r, ra, tmin, tmax);
                }
            },
            Hitable::YzRect(r) => {
                if yz_rect_hit_model(r, ra, tmin, tmax) is Some {
                    lemma_yz_rect_covered(r, ra, tmin, tmax);
                }
            },
            Hitable::Cube(c) => {
                if cube_hit_model(c, ra, tmin, tmax) is Some {
                    lemma_cube_covered(c, ra, tmin, tmax);
                }
            },
            _ => {},
        }
    }

    /// Law: a hierarchy with nested boxes over plain primitive leaves
    /// returns exactly the closest hit over its leaves — ties toward
    /// the later leaf — for every ray within the direction bound and
    /// every parameter interval. The box pruning never changes the
    /// answer.
    pub proof fn lemma_bvh_primitive_closest_hit(self, ra: Ray, tmin: int, tmax: int)
        requires
            self.wf(),
            self.boxes_nested(),
            self.primitive_leaves(),
            ra.direction.bounded(0x10_0000_0000),
        ensures
            self.model(ra, tmin, tmax) == best_of(self.leaves(), ra, tmin, tmax),
    {
        self.lemma_primitive_leaves_covered(ra, tmin, tmax);
        self.lemma_bvh_built_closest_hit(ra, tmin, tmax);
    }
}

/// One slab at the rational parameter `t / 1` (written with denominator
/// one scale unit), derived from bounds on the rounded coordinate the
/// hit models compute: the exact coordinate lies within one tick above
/// the rounded one.
proof fn lemma_axis_from_coord(o: int, d: int, mn: int, mx: int, t: int)
    requires
        mn <= o + fmul(t, d),
        o + fmul(t, d) + 1 <= mx,
    ensures
        crate::aabb::axis_ok(o, d, mn, mx, t * 65536, 65536),
{
    let f = fmul(t, d);
    crate::fixed::lemma_floor_div_rem(t * d, 65536);
    assert(mn * 65536 * 65536 <= o * 65536 * 65536 + (t * 65536) * d <= mx * 65536 * 65536)
        by (nonlinear_arith)
        requires
            mn <= o + f,
            o + f + 1 <= mx,
            0 <= t * d - f * 65536 < 65536,
    ;
}

/// One slab at the rational parameter `t / 1` for the axis the plane
/// crossing was solved on: the exact coordinate differs from the plane
/// by less than the direction component over the scale, which the box
/// padding absorbs for any direction within the direction bound.
proof fn lemma_axis_from_plane(o: int, d: int, k: int, t: int)
    requires
        d != 0,
        -0x10_0000_0000 <= d <= 0x10_0000_0000,
        t == fdiv(k - o, d),
    ensures
        crate::aabb::axis_ok(o, d, k - 0x10_0000, k + 0x10_0000, t * 65536, 65536),
{
    crate::fixed::lemma_floor_div_rem((k - o) * 65536, d);
    assert((k - 0x10_0000) * 65536 * 65536 <= o * 65536 * 65536 + (t * 65536) * d <= (k
        + 0x10_0000) * 65536 * 65536) by (nonlinear_arith)
        requires
            d != 0,
            -0x10_0000_0000 <= d <= 0x10_0000_0000,
            d > 0 ==> 0 <= (k - o) * 65536 - t * d < d,
            d < 0 ==> d < (k - o) * 65536 - t * d <= 0,
    ;
}

/// The parameter interval constraint at denominator one scale unit.
proof fn lemma_interval_at_unit(tmin: int, tmax: int, t: int)
    requires
        tmin <= t <= tmax,
    ensures
        tmin * 65536 <= t * 65536 <= tmax * 65536,
{
}

/// Any point the sphere model accepts admits the ray through the
/// sphere's padded box at the root's own parameter.
proof fn lemma_sphere_root_covered(s: Sphere, ra: Ray, tmin: int, tmax: int, t: int)
    requires
        sphere_wf(s),
        sphere_point_near(s, ra, t),
        tmin <= t <= tmax,
    ensures
        crate::aabb::aabb_hit(sphere_bbox(s), ra, tmin, tmax),
{
    let b = sphere_bbox(s);
    lemma_axis_from_coord(
        ra.origin.x as int,
        ra.direction.x as int,
        b.min.x as int,
        b.max.x as int,
        t,
    );
    lemma_axis_from_coord(
        ra.origin.y as int,
        ra.direction.y as int,
        b.min.y as int,
        b.max.y as int,
        t,
    );
    lemma_axis_from_coord(
        ra.origin.z as int,
        ra.direction.z as int,
        b.min.z as int,
        b.max.z as int,
        t,
    );
    lemma_interval_at_unit(tmin, tmax, t);
    assert(crate::aabb::slab_contains_at(b, ra, t * 65536, 65536));
}

/// Law: a sphere hit always admits the ray through the sphere's own
/// padded bounding box over the same interval.
pub proof fn lemma_sphere_covered(s: Sphere, ra: Ray, tmin: int, tmax: int)
    requires
        sphere_wf(s),
        sphere_hit_model(s, ra, tmin, tmax) is Some,
    ensures
        crate::aabb::aabb_hit(sphere_bbox(s), ra, tmin, tmax),
{
    let oc = (
        ra.origin.x - s.center.x as int,
        ra.origin.y - s.center.y as int,
        ra.origin.z - s.center.z as int,
    );
    let a = sdot3(sv(ra.direction), sv(ra.direction));
    let b = 2 * sdot3(oc, sv(ra.direction));
    let c = sdot3(oc, oc) - (s.radius * s.radius) / 65536;
    let delta = b * b - 4 * (a * c);
    let temp = crate::fixed::sqrt_floor(delta);
    let r1 = crate::fixed::floor_div((-b - temp) * 65536, 2 * a);
    if tmin < r1 < tmax {
        lemma_sphere_root_covered(s, ra, tmin, tmax, r1);
    } else {
        let r2 = crate::fixed::floor_div((-b + temp) * 65536, 2 * a);
        lemma_sphere_root_covered(s, ra, tmin, tmax, r2);
    }
}

/// Law: a rectangle hit always admits the ray through the rectangle's
/// own padded bounding box over the same interval, for directions
/// within the direction bound.
pub proof fn lemma_xy_rect_covered(r: XyRect, ra: Ray, tmin: int, tmax: int)
    requires
        xy_rect_wf(r),
        ra.direction.bounded(0x10_0000_0000),
        xy_rect_hit_model(r, ra, tmin, tmax) is Some,
    ensures
        crate::aabb::aabb_hit(xy_rect_bbox(r), ra, tmin, tmax),
{
    let b = xy_rect_bbox(r);
    let t = fdiv(r.k - ra.origin.z, ra.direction.z as int);
    lemma_axis_from_coord(
        ra.origin.x as int,
        ra.direction.x as int,
        b.min.x as int,
        b.max.x as int,
        t,
    );
    lemma_axis_from_coord(
        ra.origin.y as int,
        ra.direction.y as int,
        b.min.y as int,
        b.max.y as int,
        t,
    );
    lemma_axis_from_plane(ra.origin.z as int, ra.direction.z as int, r.k as int, t);
    lemma_interval_at_unit(tmin, tmax, t);
    assert(crate::aabb::slab_contains_at(b, ra, t * 65536, 65536));
}

pub proof fn lemma_xz_rect_covered(r: XzRect, ra: Ray, tmin: int, tmax: int)
    requires
        xz_rect_wf(r),
        ra.direction.bounded(0x10_0000_0000),
        xz_rect_hit_model(r, ra, tmin, tmax) is Some,
    ensures
        crate::aabb::aabb_hit(xz_rect_bbox(r), ra, tmin, tmax),
{
    let b = xz_rect_bbox(r);
    let t = fdiv(r.k - ra.origin.y, ra.direction.y as int);
    lemma_axis_from_coord(
        ra.origin.x as int,
        ra.direction.x as int,
        b.min.x as int,
        b.max.x as int,
        t,
    );
    lemma_axis_from_plane(ra.origin.y as int, ra.direction.y as int, r.k as int, t);
    lemma_axis_from_coord(
        ra.origin.z as int,
        ra.direction.z as int,
        b.min.z as int,
        b.max.z as int,
        t,
    );
    lemma_interval_at_unit(tmin, tmax, t);
    assert(crate::aabb::slab_contains_at(b, ra, t * 65536, 65536));
}

/// Law: a cube hit always admits the ray through the cube's own padded
/// bounding box over the same interval, for directions within the
/// direction bound: whichever face reported the crossing, its flat box
/// lies inside the cube's box.
pub proof fn lemma_cube_covered(c: Cube, ra: Ray, tmin: int, tmax: int)
    requires
        cube_wf(c),
        ra.direction.bounded(0x10_0000_0000),
        cube_hit_model(c, ra, tmin, tmax) is Some,
    ensures
        crate::aabb::aabb_hit(cube_bbox(c), ra, tmin, tmax),
{
    let cb = cube_bbox(c);
    let b0 = xy_rect_hit_model(c.xy_hi, ra, tmin, tmax);
    let t0 = if b0 is Some {
        b0->0.t
    } else {
        tmax
    };
    let r1 = xy_rect_hit_model(c.xy_lo, ra, tmin, t0);
    let b1 = if r1 is Some {
        r1
    } else {
        b0
    };
    let t1 = if b1 is Some {
        b1->0.t
    } else {
        tmax
    };
    let r2 = xz_rect_hit_model(c.xz_hi, ra, tmin, t1);
    let b2 = if r2 is Some {
        r2
    } else {
        b1
    };
    let t2 = if b2 is Some {
        b2->0.t
    } else {
        tmax
    };
    let r3 = xz_rect_hit_model(c.xz_lo, ra, tmin, t2);
    let b3 = if r3 is Some {
        r3
    } else {
        b2
    };
    let t3 = if b3 is Some {
        b3->0.t
    } else {
        tmax
    };
    let r4 = yz_rect_hit_model(c.yz_hi, ra, tmin, t3);
    let b4 = if r4 is Some {
        r4
    } else {
        b3
    };
    let t4 = if b4 is Some {
        b4->0.t
    } else {
        tmax
    };
    let r5 = yz_rect_hit_model(c.yz_lo, ra, tmin, t4);
    assert(t0 <= tmax);
    assert(t1 <= tmax);
    assert(t2 <= tmax);
    assert(t3 <= tmax);
    assert(t4 <= tmax);
    assert(crate::aabb::contains_box(cb, xy_rect_bbox(c.xy_hi)));
    assert(crate::aabb::contains_box(cb, xy_rect_bbox(c.xy_lo)));
    assert(crate::aabb::contains_box(cb, xz_rect_bbox(c.xz_hi)));
    assert(crate::aabb::contains_box(cb, xz_rect_bbox(c.xz_lo)));
    assert(crate::aabb::contains_box(cb, yz_rect_bbox(c.yz_hi)));
    assert(crate::aabb::contains_box(cb, yz_rect_bbox(c.yz_lo)));
    if r5 is Some {
        lemma_yz_rect_covered(c.yz_lo, ra, tmin, t4);
        crate::aabb::lemma_aabb_hit_interval_widen(yz_rect_bbox(c.yz_lo), ra, tmin, t4, tmax);
        crate::aabb::lemma_aabb_hit_widens(yz_rect_bbox(c.yz_lo), cb, ra, tmin, tmax);
    } else if r4 is Some {
        lemma_yz_rect_covered(c.yz_hi, ra, tmin, t3);
        crate::aabb::lemma_aabb_hit_interval_widen(yz_rect_bbox(c.yz_hi), ra, tmin, t3, tmax);
        crate::aabb::lemma_aabb_hit_widens(yz_rect_bbox(c.yz_hi), cb, ra, tmin, tmax);
    } else if r3 is Some {
        lemma_xz_rect_covered(c.xz_lo, ra, tmin, t2);
        crate::aabb::lemma_aabb_hit_interval_widen(xz_rect_bbox(c.xz_lo), ra, tmin, t2, tmax);
        crate::aabb::lemma_aabb_hit_widens(xz_rect_bbox(c.xz_lo), cb, ra, tmin, tmax);
    } else if r2 is Some {
        lemma_xz_rect_covered(c.xz_hi, ra, tmin, t1);
        crate::aabb::lemma_aabb_hit_interval_widen(xz_rect_bbox(c.xz_hi), ra, tmin, t1, tmax);
        crate::aabb::lemma_aabb_hit_widens(xz_rect_bbox(c.xz_hi), cb, ra, tmin, tmax);
    } else if r1 is Some {
        lemma_xy_rect_covered(c.xy_lo, ra, tmin, t0);
        crate::aabb::lemma_aabb_hit_interval_widen(xy_rect_bbox(c.xy_lo), ra, tmin, t0, tmax);
        crate::aabb::lemma_aabb_hit_widens(xy_rect_bbox(c.xy_lo), cb, ra, tmin, tmax);
    } else {
        assert(b0 is Some);
        lemma_xy_rect_covered(c.xy_hi, ra, tmin, tmax);
        crate::aabb::lemma_aabb_hit_widens(xy_rect_bbox(c.xy_hi), cb, ra, tmin, tmax);
    }
}

pub proof fn lemma_yz_rect_covered(r: YzRect, ra: Ray, tmin: int, tmax: int)
    requires
        yz_rect_wf(r),
        ra.direction.bounded(0x10_0000_0000),
        yz_rect_hit_model(r, ra, tmin, tmax) is Some,
    ensures
        crate::aabb::aabb_hit(yz_rect_bbox(r), ra, tmin, tmax),
{
    let b = yz_rect_bbox(r);
    let t = fdiv(r.k - ra.origin.x, ra.direction.x as int);
    lemma_axis_from_plane(ra.origin.x as int, ra.direction.x as int, r.k as int, t);
    lemma_axis_from_coord(
        ra.origin.y as int,
        ra.direction.y as int,
        b.min.y as int,
        b.max.y as int,
        t,
    );
    lemma_axis_from_coord(
        ra.origin.z as int,
        ra.direction.z as int,
        b.min.z as int,
        b.max.z as int,
        t,
    );
    lemma_interval_at_unit(tmin, tmax, t);
    assert(crate::aabb::slab_contains_at(b, ra, t * 65536, 65536));
}

/// The smaller of two unbounded integers.
pub open spec fn imin(a: int, b: int) -> int {
    if a < b {
        a
    } else {
        b
    }
}

/// The larger of two unbounded integers.
pub open spec fn imax(a: int, b: int) -> int {
    if a > b {
        a
    } else {
        b
    }
}

/// The world-space box of a rotated child box: the extremes of the four
/// rotated corner columns, clamped into the scene bound; the vertical
/// extent is untouched.
pub open spec fn rotate_bbox_model(s: int, c: int, ob: Option<crate::aabb::AABB>) -> Option<
    crate::aabb::AABB,
> {
    match ob {
        None => None,
        Some(b) => {
            let x00 = fmul(c, b.min.x as int) + fmul(s, b.min.z as int);
            let x01 = fmul(c, b.min.x as int) + fmul(s, b.max.z as int);
            let x10 = fmul(c, b.max.x as int) + fmul(s, b.min.z as int);
            let x11 = fmul(c, b.max.x as int) + fmul(s, b.max.z as int);
            let z00 = fmul(c, b.min.z as int) - fmul(s, b.min.x as int);
            let z01 = fmul(c, b.max.z as int) - fmul(s, b.min.x as int);
            let z10 = fmul(c, b.min.z as int) - fmul(s, b.max.x as int);
            let z11 = fmul(c, b.max.z as int) - fmul(s, b.max.x as int);
            Some(
                crate::aabb::AABB {
                    min: Vec3 {
                        x: clamp_c(imin(imin(x00, x01), imin(x10, x11))),
                        y: b.min.y,
                        z: clamp_c(imin(imin(z00, z01), imin(z10, z11))),
                    },
                    max: Vec3 {
                        x: clamp_c(imax(imax(x00, x01), imax(x10, x11))),
                        y: b.max.y,
                        z: clamp_c(imax(imax(z00, z01), imax(z10, z11))),
                    },
                },
            )
        },
    }
}

impl Hitable {
    /// The box this hitable fits in, or `None` where none exists (a
    /// rotation whose child had none).
    pub open spec fn bbox_model(self) -> Option<crate::aabb::AABB>
        decreases self,
    {
        match self {
            Hitable::Sphere(s) => Some(sphere_bbox(s)),
            Hitable::XyRect(r) => Some(xy_rect_bbox(r)),
            Hitable::XzRect(r) => Some(xz_rect_bbox(r)),
            Hitable::YzRect(r) => Some(yz_rect_bbox(r)),
            Hitable::Cube(c) => Some(cube_bbox(c)),
            Hitable::Translate(t) => match t.child.bbox_model() {
                None => None,
                Some(b) => Some(
                    crate::aabb::AABB {
                        min: Vec3 {
                            x: clamp_c(b.min.x + t.offset.x),
                            y: clamp_c(b.min.y + t.offset.y),
                            z: clamp_c(b.min.z + t.offset.z),
                        },
                        max: Vec3 {
                            x: clamp_c(b.max.x + t.offset.x),
                            y: clamp_c(b.max.y + t.offset.y),
                            z: clamp_c(b.max.z + t.offset.z),
                        },
                    },
                ),
            },
            Hitable::RotateY(r) => r.bbox,
            Hitable::ConstantMedium(m) => m.boundary.bbox_model(),
            Hitable::Node(n) => Some(n.bbox),
        }
    }

    /// The cached or computed bounding box, exactly `bbox_model`; every
    /// box handed out is ordered and scene-bounded.
    pub fn bounding_box(&self) -> (r: Option<crate::aabb::AABB>)
        requires
            self.wf(),
        ensures
            r == self.bbox_model(),
            r is Some ==> crate::aabb::aabb_wf(r->0) && crate::aabb::aabb_bounded(r->0),
        decreases *self,
    {
        match self {
            Hitable::Sphere(s) => Some(s.bounding_box()),
            Hitable::XyRect(rr) => Some(rr.bounding_box()),
            Hitable::XzRect(rr) => Some(rr.bounding_box()),
            Hitable::YzRect(rr) => Some(rr.bounding_box()),
            Hitable::Cube(c) => Some(c.bounding_box()),
            Hitable::Translate(t) => match t.child.bounding_box() {
                None => None,
                Some(b) => Some(
                    crate::aabb::AABB {
                        min: Vec3 {
                            x: clamp_to(b.min.x + t.offset.x, 0x40_0000_0000),
                            y: clamp_to(b.min.y + t.offset.y, 0x40_0000_0000),
                            z: clamp_to(b.min.z + t.offset.z, 0x40_0000_0000),
                        },
                        max: Vec3 {
                            x: clamp_to(b.max.x + t.offset.x, 0x40_0000_0000),
                            y: clamp_to(b.max.y + t.offset.y, 0x40_0000_0000),
                            z: clamp_to(b.max.z + t.offset.z, 0x40_0000_0000),
                        },
                    },
                ),
            },
            Hitable::RotateY(r) => r.bbox,
            Hitable::ConstantMedium(m) => m.boundary.bounding_box(),
            Hitable::Node(n) => Some(n.bbox),
        }
    }
}

impl RotateY {
    /// Fix the rotation's sine and cosine and cache the world-space box
    /// of the rotated child.
    #[verifier::rlimit(100)]
    pub fn new(child: Hitable, sin_theta: i64, cos_theta: i64) -> (r: RotateY)
        requires
            -65536 <= sin_theta <= 65536,
            -65536 <= cos_theta <= 65536,
            child.wf(),
        ensures
            r.sin_theta == sin_theta,
            r.cos_theta == cos_theta,
            *r.child == child,
            r.bbox == rotate_bbox_model(sin_theta as int, cos_theta as int, child.bbox_model()),
            Hitable::RotateY(r).wf(),
            Hitable::RotateY(r).media_free() == child.media_free(),
            forall|n: int| #[trigger] Hitable::RotateY(r).mats_in(n) == child.mats_in(n),
    {
        let bbox = match child.bounding_box() {
            None => None,
            Some(b) => Some(rotated_box(sin_theta, cos_theta, b)),
        };
        RotateY { sin_theta, cos_theta, bbox, child: Box::new(child) }
    }
}

/// The world-space box of a rotated child box, computed corner by
/// corner: exactly the `Some` case of `rotate_bbox_model`.
#[verifier::rlimit(100)]
fn rotated_box(sin_theta: i64, cos_theta: i64, b: crate::aabb::AABB) -> (r: crate::aabb::AABB)
    requires
        -65536 <= sin_theta <= 65536,
        -65536 <= cos_theta <= 65536,
        crate::aabb::aabb_wf(b),
        crate::aabb::aabb_bounded(b),
    ensures
        Some(r) == rotate_bbox_model(sin_theta as int, cos_theta as int, Some(b)),
        crate::aabb::aabb_wf(r),
        crate::aabb::aabb_bounded(r),
{
    proof {
        lemma_rot_fits(sin_theta as int, cos_theta as int);
    }
    let x00 = crate::fixed::mul_fx(cos_theta, b.min.x) + crate::fixed::mul_fx(sin_theta, b.min.z);
    let x01 = crate::fixed::mul_fx(cos_theta, b.min.x) + crate::fixed::mul_fx(sin_theta, b.max.z);
    let x10 = crate::fixed::mul_fx(cos_theta, b.max.x) + crate::fixed::mul_fx(sin_theta, b.min.z);
    let x11 = crate::fixed::mul_fx(cos_theta, b.max.x) + crate::fixed::mul_fx(sin_theta, b.max.z);
    let z00 = crate::fixed::mul_fx(cos_theta, b.min.z) - crate::fixed::mul_fx(sin_theta, b.min.x);
    let z01 = crate::fixed::mul_fx(cos_theta, b.max.z) - crate::fixed::mul_fx(sin_theta, b.min.x);
    let z10 = crate::fixed::mul_fx(cos_theta, b.min.z) - crate::fixed::mul_fx(sin_theta, b.max.x);
    let z11 = crate::fixed::mul_fx(cos_theta, b.max.z) - crate::fixed::mul_fx(sin_theta, b.max.x);
    let minx = crate::fixed::ffmin(crate::fixed::ffmin(x00, x01), crate::fixed::ffmin(x10, x11));
    let maxx = crate::fixed::ffmax(crate::fixed::ffmax(x00, x01), crate::fixed::ffmax(x10, x11));
    let minz = crate::fixed::ffmin(crate::fixed::ffmin(z00, z01), crate::fixed::ffmin(z10, z11));
    let maxz = crate::fixed::ffmax(crate::fixed::ffmax(z00, z01), crate::fixed::ffmax(z10, z11));
    crate::aabb::AABB {
        min: Vec3 {
            x: clamp_to(minx, 0x40_0000_0000),
            y: b.min.y,
            z: clamp_to(minz, 0x40_0000_0000),
        },
        max: Vec3 {
            x: clamp_to(maxx, 0x40_0000_0000),
            y: b.max.y,
            z: clamp_to(maxz, 0x40_0000_0000),
        },
    }
}

/// The rotation arithmetic stays in `i64` for scene-bounded inputs.
proof fn lemma_rot_fits(s: int, c: int)
    requires
        -65536 <= s <= 65536,
        -65536 <= c <= 65536,
    ensures
        forall|v: int|
            -0x40_0000_0000 <= v <= 0x40_0000_0000 ==> -0x40_0000_0001 <= #[trigger] fmul(c, v)
                <= 0x40_0000_0000,
        forall|v: int|
            -0x40_0000_0000 <= v <= 0x40_0000_0000 ==> -0x40_0000_0001 <= #[trigger] fmul(s, v)
                <= 0x40_0000_0000,
{
    assert forall|v: int| -0x40_0000_0000 <= v <= 0x40_0000_0000 implies -0x40_0000_0001
        <= #[trigger] fmul(c, v) <= 0x40_0000_0000 by {
        crate::vec3::lemma_fmul_fits(c, v, 65536, 0x40_0000_0000);
    }
    assert forall|v: int| -0x40_0000_0000 <= v <= 0x40_0000_0000 implies -0x40_0000_0001
        <= #[trigger] fmul(s, v) <= 0x40_0000_0000 by {
        crate::vec3::lemma_fmul_fits(s, v, 65536, 0x40_0000_0000);
    }
}

/// The rotation back to world space stays in `i64` for the clamped
/// point range.
proof fn lemma_rot_back_fits(s: int, c: int)
    requires
        -65536 <= s <= 65536,
        -65536 <= c <= 65536,
    ensures
        forall|v: int|
            -0x1000_0000_0000_0000 <= v <= 0x1000_0000_0000_0000 ==> -0x1000_0000_0000_0001
                <= #[trigger] fmul(c, v) <= 0x1000_0000_0000_0000,
        forall|v: int|
            -0x1000_0000_0000_0000 <= v <= 0x1000_0000_0000_0000 ==> -0x1000_0000_0000_0001
                <= #[trigger] fmul(s, v) <= 0x1000_0000_0000_0000,
{
    assert forall|v: int|
        -0x1000_0000_0000_0000 <= v <= 0x1000_0000_0000_0000 implies -0x1000_0000_0000_0001
        <= #[trigger] fmul(c, v) <= 0x1000_0000_0000_0000 by {
        crate::vec3::lemma_fmul_fits(c, v, 65536, 0x1000_0000_0000_0000);
    }
    assert forall|v: int|
        -0x1000_0000_0000_0000 <= v <= 0x1000_0000_0000_0000 implies -0x1000_0000_0000_0001
        <= #[trigger] fmul(s, v) <= 0x1000_0000_0000_0000 by {
        crate::vec3::lemma_fmul_fits(s, v, 65536, 0x1000_0000_0000_0000);
    }
}

/// A squared length below one scale unit means the raw squared norm is
/// below the unit threshold, and conversely.
pub proof fn lemma_nsq_small(d: Vec3)
    requires
        crate::vec3::sdot(d, d) < 1,
    ensures
        crate::vec3::nsq(d) < 65536,
{
    if crate::vec3::nsq(d) >= 65536 {
        vstd::arithmetic::div_mod::lemma_div_is_ordered(65536, crate::vec3::nsq(d), 65536);
    }
}

pub proof fn lemma_nsq_large(d: Vec3)
    requires
        crate::vec3::sdot(d, d) >= 1,
    ensures
        crate::vec3::nsq(d) >= 65536,
{
    lemma_fundamental_div_mod(crate::vec3::nsq(d), 65536);
    vstd::arithmetic::div_mod::lemma_mod_bound(crate::vec3::nsq(d), 65536);
    assert(65536 * (crate::vec3::nsq(d) / 65536) >= 65536) by (nonlinear_arith)
        requires
            crate::vec3::nsq(d) / 65536 >= 1,
    ;
}

/// The free-path step converted back to a ray parameter never leaves
/// the clamped interval: `hd <= (t2 - t1) * len / ONE` implies
/// `hd * ONE / len <= t2 - t1`.
proof fn lemma_medium_step(hd: int, dt: int, len: int, inside: int)
    requires
        len >= 256,
        dt <= 0x200_0000_0000,
        0 <= hd <= inside,
        inside == fmul(dt, len),
    ensures
        0 <= fdiv(hd, len) <= dt,
        i64::MIN <= fdiv(hd, len) <= i64::MAX,
{
    lemma_fundamental_div_mod(dt * len, 65536);
    vstd::arithmetic::div_mod::lemma_mod_bound(dt * len, 65536);
    assert(inside * 65536 <= dt * len);
    assert(dt >= 0) by (nonlinear_arith)
        requires
            dt * len >= 0,
            len > 0,
    ;
    vstd::arithmetic::div_mod::lemma_div_is_ordered(hd * 65536, dt * len, len);
    assert((dt * len) / len == dt) by {
        vstd::arithmetic::div_mod::lemma_fundamental_div_mod_converse(dt * len, len, dt, 0);
        assert(dt * len == dt * len + 0) by (nonlinear_arith);
    }
    vstd::arithmetic::div_mod::lemma_div_is_ordered(0, hd * 65536, len);
    assert(0int / len == 0) by {
        vstd::arithmetic::div_mod::lemma_fundamental_div_mod_converse(0, len, 0, 0);
    }
}

/// The centre coordinates as plain integers, to keep the big bound
/// statements readable.
pub open spec fn s_cx(s: Sphere) -> int {
    s.center.x as int
}

pub open spec fn s_cy(s: Sphere) -> int {
    s.center.y as int
}

pub open spec fn s_cz(s: Sphere) -> int {
    s.center.z as int
}

/// Bounds for the products the sphere quadratic forms.
proof fn lemma_sphere_products(s: Sphere, ra: Ray)
    requires
        sphere_wf(s),
        ray_wf(ra),
        ra.direction.bounded(0x10_0000_0000),
    ensures
        -0x8000000000000000000 <= (ra.origin.x - s_cx(s)) * ra.direction.x
            <= 0x8000000000000000000,
        -0x8000000000000000000 <= (ra.origin.y - s_cy(s)) * ra.direction.y
            <= 0x8000000000000000000,
        -0x8000000000000000000 <= (ra.origin.z - s_cz(s)) * ra.direction.z
            <= 0x8000000000000000000,
        0 <= ra.direction.x * ra.direction.x <= 0x1000000000000000000,
        0 <= ra.direction.y * ra.direction.y <= 0x1000000000000000000,
        0 <= ra.direction.z * ra.direction.z <= 0x1000000000000000000,
        0 <= (ra.origin.x - s_cx(s)) * (ra.origin.x - s_cx(s)) <= 0x40000000000000000000,
        0 <= (ra.origin.y - s_cy(s)) * (ra.origin.y - s_cy(s)) <= 0x40000000000000000000,
        0 <= (ra.origin.z - s_cz(s)) * (ra.origin.z - s_cz(s)) <= 0x40000000000000000000,
        0 <= s.radius * s.radius <= 0x10000000000000000000,
        crate::vec3::nsq(ra.direction) == ra.direction.x * ra.direction.x + ra.direction.y
            * ra.direction.y + ra.direction.z * ra.direction.z,
{
    lemma_prod_bound(ra.origin.x - s_cx(s), ra.direction.x as int, 0x80_0000_0000, 0x10_0000_0000);
    lemma_prod_bound(ra.origin.y - s_cy(s), ra.direction.y as int, 0x80_0000_0000, 0x10_0000_0000);
    lemma_prod_bound(ra.origin.z - s_cz(s), ra.direction.z as int, 0x80_0000_0000, 0x10_0000_0000);
    lemma_prod_bound(ra.direction.x as int, ra.direction.x as int, 0x10_0000_0000, 0x10_0000_0000);
    lemma_prod_bound(ra.direction.y as int, ra.direction.y as int, 0x10_0000_0000, 0x10_0000_0000);
    lemma_prod_bound(ra.direction.z as int, ra.direction.z as int, 0x10_0000_0000, 0x10_0000_0000);
    lemma_prod_bound(ra.origin.x - s_cx(s), ra.origin.x - s_cx(s), 0x80_0000_0000, 0x80_0000_0000);
    lemma_prod_bound(ra.origin.y - s_cy(s), ra.origin.y - s_cy(s), 0x80_0000_0000, 0x80_0000_0000);
    lemma_prod_bound(ra.origin.z - s_cz(s), ra.origin.z - s_cz(s), 0x80_0000_0000, 0x80_0000_0000);
    lemma_prod_bound(s.radius as int, s.radius as int, 0x40_0000_0000, 0x40_0000_0000);
    assert(ra.direction.x * ra.direction.x >= 0) by (nonlinear_arith);
    assert(ra.direction.y * ra.direction.y >= 0) by (nonlinear_arith);
    assert(ra.direction.z * ra.direction.z >= 0) by (nonlinear_arith);
    assert((ra.origin.x - s_cx(s)) * (ra.origin.x - s_cx(s)) >= 0) by (nonlinear_arith);
    assert((ra.origin.y - s_cy(s)) * (ra.origin.y - s_cy(s)) >= 0) by (nonlinear_arith);
    assert((ra.origin.z - s_cz(s)) * (ra.origin.z - s_cz(s)) >= 0) by (nonlinear_arith);
    assert(s.radius * s.radius >= 0) by (nonlinear_arith);
}

/// Bounds for the discriminant of the sphere quadratic.
proof fn lemma_sphere_coeff_bounds(a: int, b: int, c: int)
    requires
        0 <= a <= 0x300000000000000,
        -0x3000000000000002 <= b <= 0x3000000000000000,
        -0x1000000000000001 <= c <= 0xC000000000000000,
    ensures
        0 <= b * b <= 0x1000_0000_0000_0000_0000_0000_0000_0000,
        -0x400_0000_0000_0000_0000_0000_0000_0000 <= a * c <= 0x400_0000_0000_0000_0000_0000_0000_0000,
        -0x2000_0000_0000_0000_0000_0000_0000_0000 <= b * b - 4 * (a * c)
            <= 0x2000_0000_0000_0000_0000_0000_0000_0000,
{
    lemma_prod_bound(b, b, 0x3000000000000002, 0x3000000000000002);
    lemma_prod_bound(a, c, 0x300000000000000, 0xC000000000000000);
    assert(b * b >= 0) by (nonlinear_arith);
}

/// Bounds for the root numerators and the positivity of the
/// denominator.
proof fn lemma_sphere_root_bounds(b: int, temp: int, a: int)
    requires
        -0x3000000000000002 <= b <= 0x3000000000000000,
        0 <= temp,
        temp * temp <= 0x2000_0000_0000_0000_0000_0000_0000_0000,
        a >= 1,
    ensures
        temp <= 0x8000_0000_0000_0000,
        2 * a >= 2,
{
    assert(temp <= 0x8000_0000_0000_0000) by (nonlinear_arith)
        requires
            0 <= temp,
            temp * temp <= 0x2000_0000_0000_0000_0000_0000_0000_0000,
    ;
}

} // verus!
