//! Surface response: how each material absorbs, emits, and scatters.

use crate::fixed::fdiv;
use crate::fixed::fmul;
use crate::fixed::sqrt_floor;
use crate::hit::hit_wf;
use crate::hit::HitResult;
use crate::onb::onb_of;
use crate::onb::sunit;
use crate::ray::ray_wf;
use crate::ray::Ray;
use crate::texture::arena_wf;
use crate::texture::color_ok;
use crate::texture::value_at;
use crate::texture::Texture;
use crate::vec3::sdot;
use crate::vec3::sv;
use crate::vec3::Vec3;
use vstd::prelude::*;

verus! {

/// Diffuse reflection tinted by a texture (an arena index).
#[derive(Clone, Copy, PartialEq, Eq, Structural, Debug)]
pub struct Lambertian {
    pub albedo: usize,
}

/// Specular reflection, optionally fuzzed, tinted by a texture.
#[derive(Clone, Copy, PartialEq, Eq, Structural, Debug)]
pub struct Metal {
    pub albedo: usize,
    pub fuzzy: i64,
}

/// A clear medium with the given index of refraction (fixed scale).
#[derive(Clone, Copy, PartialEq, Eq, Structural, Debug)]
pub struct Dielectric {
    pub ref_idx: i64,
}

/// A one-sided emitter tinted by a texture.
#[derive(Clone, Copy, PartialEq, Eq, Structural, Debug)]
pub struct DiffuseLight {
    pub emit: usize,
}

/// Any material.
#[derive(Clone, Copy, PartialEq, Eq, Structural, Debug)]
pub enum Material {
    Lambertian(Lambertian),
    Metal(Metal),
    Dielectric(Dielectric),
    DiffuseLight(DiffuseLight),
}

/// What a scatter produces: a tint, the outgoing ray, the density the
/// material reports for its own sample, and whether the bounce is
/// specular (and so bypasses importance sampling).
#[derive(Clone, Copy, PartialEq, Eq, Structural, Debug)]
pub struct ScatterResult {
    pub attenuation: Vec3,
    pub scattered: Ray,
    pub pdf: i64,
    pub is_specular: bool,
}

/// Texture indices stay inside an arena of `n` entries, and the fuzz
/// and refraction parameters stay in their ranges.
pub open spec fn material_wf(m: Material, n: int) -> bool {
    match m {
        Material::Lambertian(l) => (l.albedo as int) < n,
        Material::Metal(mt) => (mt.albedo as int) < n && 0 <= mt.fuzzy <= 65536,
        Material::Dielectric(d) => 16384 <= d.ref_idx <= 262144,
        Material::DiffuseLight(dl) => (dl.emit as int) < n,
    }
}

/// The mirror reflection of `v` about `n`, as the vector code computes
/// it.
pub open spec fn sreflect(v: (int, int, int), n: Vec3) -> (int, int, int) {
    let d = crate::hit::sdot3(v, sv(n));
    (
        v.0 - fmul(2 * d, n.x as int),
        v.1 - fmul(2 * d, n.y as int),
        v.2 - fmul(2 * d, n.z as int),
    )
}

/// Schlick's reflectance approximation at the fixed scale.
pub open spec fn schlick_of(cosine: int, ref_idx: int) -> int {
    let r0 = fdiv(65536 - ref_idx, 65536 + ref_idx);
    let r0sq = fmul(r0, r0);
    let omc = 65536 - cosine;
    let p2 = fmul(omc, omc);
    let p4 = fmul(p2, p2);
    let p5 = fmul(p4, omc);
    r0sq + fmul(65536 - r0sq, p5)
}

/// The unit vector of a direction, as a vector value.
pub open spec fn unit_vec_of(d: Vec3) -> Vec3 {
    let s = sunit(d);
    Vec3 { x: s.0 as i64, y: s.1 as i64, z: s.2 as i64 }
}

/// Snell refraction of a unit direction about `n` with index ratio
/// `eta`, exactly as the code computes it: the perpendicular part
/// scaled and clamped, completed by a parallel part from the remaining
/// squared length.
pub open spec fn srefract(uv: Vec3, n: Vec3, eta: int) -> (int, int, int) {
    let mc = crate::hit::sdot3((-uv.x as int, -uv.y as int, -uv.z as int), sv(n));
    let ct = if mc > 65536 {
        65536int
    } else if mc < -65536 {
        -65536int
    } else {
        mc
    };
    let px = crate::hit::clampi(
        crate::fixed::clamp64(fmul(eta, uv.x + crate::fixed::clamp64(fmul(ct, n.x as int)))),
        0x8_0000,
    );
    let py = crate::hit::clampi(
        crate::fixed::clamp64(fmul(eta, uv.y + crate::fixed::clamp64(fmul(ct, n.y as int)))),
        0x8_0000,
    );
    let pz = crate::hit::clampi(
        crate::fixed::clamp64(fmul(eta, uv.z + crate::fixed::clamp64(fmul(ct, n.z as int)))),
        0x8_0000,
    );
    let psq = (px * px + py * py + pz * pz) / 65536;
    let m = if psq >= 65536 {
        0int
    } else {
        65536 - psq
    };
    let par = crate::fixed::sqrt_floor(m * 65536);
    (px - fmul(par, n.x as int), py - fmul(par, n.y as int), pz - fmul(par, n.z as int))
}

/// A point of the open unit ball, as the fuzz sampler draws them.
pub open spec fn in_unit_ball(fz: Vec3) -> bool {
    fz.bounded(65536) && sdot(fz, fz) < 65536
}

/// The fuzzed mirror direction: the exact reflection displaced by the
/// sample scaled with the fuzz.
pub open spec fn metal_dir(refl: (int, int, int), fz: Vec3, fuzzy: int) -> (int, int, int) {
    (
        refl.0 + fmul(fz.x as int, fuzzy),
        refl.1 + fmul(fz.y as int, fuzzy),
        refl.2 + fmul(fz.z as int, fuzzy),
    )
}

impl Material {
    /// How the surface redirects an incoming ray, if it does.
    ///
    /// Whatever randomness was consumed, the result obeys its
    /// material's discipline: a diffuse bounce reports the cosine
    /// density of its own sample and is never specular; a fuzz-free
    /// metal reflects by the exact mirror formula (and rejects rays
    /// that end up inside the surface); a dielectric always refracts or
    /// reflects specularly with unit attenuation; a light never
    /// scatters.
    #[verifier::rlimit(100)]
    pub fn scatter(&self, ray_in: &Ray, hit: &HitResult, textures: &Vec<Texture>) -> (res: Option<
        ScatterResult,
    >)
        requires
            material_wf(*self, textures@.len() as int),
            arena_wf(textures@),
            ray_wf(*ray_in),
            crate::hit::dir_ok(ray_in.direction),
            hit_wf(*hit),
        ensures
            *self matches Material::Lambertian(l) ==> {
                &&& res is Some
                &&& !res->0.is_specular
                &&& color_ok(res->0.attenuation)
                &&& sv(res->0.attenuation) == crate::texture::texture_value_model(
                    textures@,
                    l.albedo as int,
                    hit.fu as int,
                    hit.fv as int,
                    sv(hit.p),
                )
                &&& sv(res->0.scattered.origin) == (
                    crate::hit::clampi(hit.p.x as int, 0x40_0000_0000),
                    crate::hit::clampi(hit.p.y as int, 0x40_0000_0000),
                    crate::hit::clampi(hit.p.z as int, 0x40_0000_0000),
                )
                &&& ray_wf(res->0.scattered)
                &&& res->0.pdf as int == fdiv(
                    sdot(onb_of(up_normal(hit.normal)).w, res->0.scattered.direction),
                    205887,
                )
            },
            *self matches Material::Metal(mt) ==> res is Some ==> {
                &&& res->0.is_specular
                &&& res->0.pdf == 0
                &&& color_ok(res->0.attenuation)
                &&& sv(res->0.attenuation) == crate::texture::texture_value_model(
                    textures@,
                    mt.albedo as int,
                    hit.fu as int,
                    hit.fv as int,
                    sv(hit.p),
                )
                &&& sv(res->0.scattered.origin) == (
                    crate::hit::clampi(hit.p.x as int, 0x40_0000_0000),
                    crate::hit::clampi(hit.p.y as int, 0x40_0000_0000),
                    crate::hit::clampi(hit.p.z as int, 0x40_0000_0000),
                )
                &&& ray_wf(res->0.scattered)
                &&& sdot(res->0.scattered.direction, hit.normal) > 0
            },
            *self matches Material::Metal(mt) && mt.fuzzy == 0 ==> {
                let refl = sreflect(sunit(ray_in.direction), hit.normal);
                &&& (res is Some <==> crate::hit::sdot3(refl, sv(hit.normal)) > 0)
                &&& (res is Some ==> sv(res->0.scattered.direction) == refl)
            },
            *self matches Material::Metal(mt) ==> exists|fz: Vec3|
                {
                    let d = metal_dir(
                        sreflect(sunit(ray_in.direction), hit.normal),
                        fz,
                        mt.fuzzy as int,
                    );
                    &&& #[trigger] in_unit_ball(fz)
                    &&& (res is Some <==> crate::hit::sdot3(d, sv(hit.normal)) > 0)
                    &&& (res is Some ==> sv(res->0.scattered.direction) == d)
                },
            *self matches Material::Dielectric(d) ==> {
                let uvv = unit_vec_of(ray_in.direction);
                let eta = if hit.front_face {
                    fdiv(65536, d.ref_idx as int)
                } else {
                    d.ref_idx as int
                };
                let refl = sreflect(sunit(ray_in.direction), hit.normal);
                let refr = srefract(uvv, hit.normal, eta);
                &&& res is Some
                &&& res->0.is_specular
                &&& (sv(res->0.scattered.direction) == refl || sv(res->0.scattered.direction)
                    == refr)
                &&& ({
                    let mc = crate::hit::sdot3(
                        (-uvv.x as int, -uvv.y as int, -uvv.z as int),
                        sv(hit.normal),
                    );
                    let ct = if mc > 65536 {
                        65536int
                    } else if mc < 0 {
                        0int
                    } else {
                        mc
                    };
                    let st = crate::fixed::sqrt_floor((65536 - fmul(ct, ct)) * 65536);
                    fmul(eta, st) > 65536 ==> sv(res->0.scattered.direction) == refl
                })
                &&& res->0.attenuation == (Vec3 { x: 65536i64, y: 65536i64, z: 65536i64 })
                &&& res->0.pdf == 0
                &&& sv(res->0.scattered.origin) == (
                    crate::hit::clampi(hit.p.x as int, 0x40_0000_0000),
                    crate::hit::clampi(hit.p.y as int, 0x40_0000_0000),
                    crate::hit::clampi(hit.p.z as int, 0x40_0000_0000),
                )
                &&& ray_wf(res->0.scattered)
            },
            *self matches Material::DiffuseLight(dl) ==> res is None,
            res is Some ==> res->0.scattered.direction.bounded(0x10_0000_0000),
    {
        match self {
            Material::Lambertian(l) => {
                let uvw = crate::onb::ONB::build_from_w(normal_or_up(hit.normal));
                let direction = uvw.localvec(crate::random::random_cosine_direction());
                let attenuation = value_at(textures, l.albedo, hit.fu, hit.fv, hit.p);
                proof {
                    crate::vec3::lemma_sdot_bound(uvw.w, direction, 393252);
                    crate::fixed::lemma_floor_div_small(
                        sdot(uvw.w, direction) * 65536,
                        205887,
                        0x8_0000_0000_0000,
                    );
                }
                let pdf = crate::fixed::div_fx(uvw.w.dot(direction), 205887);
                Some(
                    ScatterResult {
                        attenuation,
                        scattered: Ray { origin: hit.p_clamped(), direction },
                        pdf,
                        is_specular: false,
                    },
                )
            },
            Material::Metal(mt) => {
                let unit_in = unit_or_up(ray_in.direction);
                let reflected = unit_in.reflect(hit.normal);
                let fz = crate::random::random_in_unit_sphere();
                proof {
                    lemma_fuzz_fits(mt.fuzzy as int, fz);
                }
                let direction = Vec3 {
                    x: reflected.x + crate::fixed::mul_fx(fz.x, mt.fuzzy),
                    y: reflected.y + crate::fixed::mul_fx(fz.y, mt.fuzzy),
                    z: reflected.z + crate::fixed::mul_fx(fz.z, mt.fuzzy),
                };
                proof {
                    assert(!(ray_in.direction.x == 0 && ray_in.direction.y == 0
                        && ray_in.direction.z == 0));
                    assert(in_unit_ball(fz));
                    assert(sv(direction) == metal_dir(
                        sreflect(sunit(ray_in.direction), hit.normal),
                        fz,
                        mt.fuzzy as int,
                    ));
                    if mt.fuzzy == 0 {
                        assert(0int / 65536 == 0);
                        assert((fz.x as int) * 0 == 0) by (nonlinear_arith);
                        assert((fz.y as int) * 0 == 0) by (nonlinear_arith);
                        assert((fz.z as int) * 0 == 0) by (nonlinear_arith);
                        assert(fmul(fz.x as int, 0) == 0);
                        assert(fmul(fz.y as int, 0) == 0);
                        assert(fmul(fz.z as int, 0) == 0);
                        assert(sv(unit_in) == sunit(ray_in.direction));
                        assert(crate::hit::sdot3(sunit(ray_in.direction), sv(hit.normal)) == sdot(
                            unit_in,
                            hit.normal,
                        ));
                        assert(direction.x == reflected.x && direction.y == reflected.y
                            && direction.z == reflected.z);
                        assert(sv(direction) == sreflect(sunit(ray_in.direction), hit.normal));
                    }
                }
                if direction.dot(hit.normal) <= 0 {
                    return None;
                }
                let attenuation = value_at(textures, mt.albedo, hit.fu, hit.fv, hit.p);
                Some(
                    ScatterResult {
                        attenuation,
                        scattered: Ray { origin: hit.p_clamped(), direction },
                        pdf: 0,
                        is_specular: true,
                    },
                )
            },
            Material::Dielectric(d) => {
                let etai_over_etat: i64 = if hit.front_face {
                    proof {
                        crate::fixed::lemma_floor_div_small(
                            65536int * 65536,
                            d.ref_idx as int,
                            0x1_0000_0000,
                        );
                        vstd::arithmetic::div_mod::lemma_div_is_ordered_by_denominator(
                            65536int * 65536,
                            d.ref_idx as int,
                            262144,
                        );
                        vstd::arithmetic::div_mod::lemma_div_is_ordered_by_denominator(
                            65536int * 65536,
                            16384,
                            d.ref_idx as int,
                        );
                        assert((65536int * 65536) / 262144 == 16384);
                        assert((65536int * 65536) / 16384 == 262144);
                    }
                    crate::fixed::div_fx(65536, d.ref_idx)
                } else {
                    d.ref_idx
                };
                let unit_in = unit_or_up(ray_in.direction);
                let mcos = unit_in.neg().dot(hit.normal);
                let cos_theta = if mcos > 65536 {
                    65536
                } else if mcos < 0 {
                    0
                } else {
                    mcos
                };
                proof {
                    lemma_sin_from_cos(cos_theta as int);
                }
                let sin_sq: i64 = 65536 - crate::fixed::mul_fx(cos_theta, cos_theta);
                let st64 = crate::fixed::isqrt_u128((sin_sq as u128) * 65536);
                proof {
                    crate::fixed::lemma_sqrt_floor_props((sin_sq as int) * 65536);
                    assert(sqrt_floor((sin_sq as int) * 65536) <= 65536) by (nonlinear_arith)
                        requires
                            sqrt_floor((sin_sq as int) * 65536) >= 0,
                            sqrt_floor((sin_sq as int) * 65536) * sqrt_floor(
                                (sin_sq as int) * 65536,
                            ) <= (sin_sq as int) * 65536,
                            (sin_sq as int) * 65536 <= 65536 * 65536,
                    ;
                }
                let sin_theta = st64 as i64;
                proof {
                    crate::vec3::lemma_fmul_fits(
                        etai_over_etat as int,
                        sin_theta as int,
                        0x1_0000_0000,
                        65536,
                    );
                }
                let reflect_now = if crate::fixed::mul_fx(etai_over_etat, sin_theta) > 65536 {
                    true
                } else {
                    let prob = schlick(cos_theta, etai_over_etat);
                    crate::random::random_double() < prob
                };
                proof {
                    assert(!(ray_in.direction.x == 0 && ray_in.direction.y == 0
                        && ray_in.direction.z == 0));
                    assert(unit_in == unit_vec_of(ray_in.direction));
                }
                let direction = if reflect_now {
                    unit_in.reflect(hit.normal)
                } else {
                    refract(unit_in, hit.normal, etai_over_etat)
                };
                Some(
                    ScatterResult {
                        attenuation: Vec3 { x: 65536, y: 65536, z: 65536 },
                        scattered: Ray { origin: hit.p_clamped(), direction },
                        pdf: 0,
                        is_specular: true,
                    },
                )
            },
            Material::DiffuseLight(_) => None,
        }
    }

    /// The density a diffuse surface assigns to a given outgoing ray:
    /// the cosine of the scattered direction against the normal over
    /// pi, clamped at zero. Other materials report zero.
    pub fn scattering_pdf(&self, ray_in: &Ray, hit: &HitResult, scattered: &Ray) -> (r: i64)
        requires
            hit_wf(*hit),
            scattered.direction.bounded(0x10_0000_0000),
        ensures
            0 <= r <= 131072,
            *self matches Material::Lambertian(_) ==> r as int == lambertian_pdf_of(
                hit.normal,
                scattered.direction,
            ),
            !(*self matches Material::Lambertian(_)) ==> r == 0,
    {
        match self {
            Material::Lambertian(_) => {
                if scattered.direction.x == 0 && scattered.direction.y == 0
                    && scattered.direction.z == 0 {
                    return 0;
                }
                let u = scattered.direction.unit();
                let cosine = hit.normal.dot(u);
                if cosine < 0 {
                    0
                } else {
                    proof {
                        crate::vec3::lemma_prod_bound(hit.normal.x as int, u.x as int, 131072, 65536);
                        crate::vec3::lemma_prod_bound(hit.normal.y as int, u.y as int, 131072, 65536);
                        crate::vec3::lemma_prod_bound(hit.normal.z as int, u.z as int, 131072, 65536);
                        crate::fixed::lemma_floor_div_bounds(
                            hit.normal.x * u.x + hit.normal.y * u.y + hit.normal.z * u.z,
                            3int * 131072 * 65536,
                            65536,
                        );
                        lemma_cos_over_pi(sdot(hit.normal, u));
                    }
                    crate::fixed::div_fx(cosine, 205887)
                }
            },
            _ => 0,
        }
    }

    /// The light a surface adds of its own: an emitter's texture colour
    /// on its front face, black everywhere else and for every other
    /// material.
    pub fn emitted(&self, hit: &HitResult, u: i64, v: i64, p: Vec3, textures: &Vec<Texture>) -> (r:
        Vec3)
        requires
            material_wf(*self, textures@.len() as int),
            arena_wf(textures@),
            p.bounded(0x4100_0000_0000_0000),
        ensures
            color_ok(r),
            !(*self matches Material::DiffuseLight(_)) || !hit.front_face ==> r == (Vec3 {
                x: 0i64,
                y: 0i64,
                z: 0i64,
            }),
            *self matches Material::DiffuseLight(dl) ==> hit.front_face ==> sv(r)
                == crate::texture::texture_value_model(
                textures@,
                dl.emit as int,
                u as int,
                v as int,
                sv(p),
            ),
    {
        match self {
            Material::DiffuseLight(dl) => {
                if hit.front_face {
                    value_at(textures, dl.emit, u, v, p)
                } else {
                    Vec3 { x: 0, y: 0, z: 0 }
                }
            },
            _ => Vec3 { x: 0, y: 0, z: 0 },
        }
    }
}

/// The diffuse density: cosine of the unit scattered direction against
/// the normal, over pi, clamped at zero; zero for a degenerate
/// direction.
pub open spec fn lambertian_pdf_of(normal: Vec3, dir: Vec3) -> int {
    if dir.x == 0 && dir.y == 0 && dir.z == 0 {
        0
    } else {
        let c = crate::hit::sdot3(sv(normal), sunit(dir));
        if c < 0 {
            0
        } else {
            fdiv(c, 205887)
        }
    }
}

impl HitResult {
    /// The hit point pulled into the scene bound, where it serves as
    /// the next ray's origin.
    pub fn p_clamped(&self) -> (r: Vec3)
        ensures
            sv(r) == (
                crate::hit::clampi(self.p.x as int, 0x40_0000_0000),
                crate::hit::clampi(self.p.y as int, 0x40_0000_0000),
                crate::hit::clampi(self.p.z as int, 0x40_0000_0000),
            ),
            r.bounded(0x40_0000_0000),
    {
        Vec3 {
            x: crate::hit::clamp_to(self.p.x, 0x40_0000_0000),
            y: crate::hit::clamp_to(self.p.y, 0x40_0000_0000),
            z: crate::hit::clamp_to(self.p.z, 0x40_0000_0000),
        }
    }
}

/// The hit normal, or straight up when the record carries a
/// degenerate one.
pub open spec fn up_normal(n: Vec3) -> Vec3 {
    if n.x == 0 && n.y == 0 && n.z == 0 {
        Vec3 { x: 0i64, y: 65536i64, z: 0i64 }
    } else {
        n
    }
}

/// A normal that the frame builder accepts: `up_normal`, executably.
fn normal_or_up(n: Vec3) -> (r: Vec3)
    requires
        n.bounded(131072),
    ensures
        r.bounded(131072),
        r.x != 0 || r.y != 0 || r.z != 0,
        r == up_normal(n),
{
    if n.x == 0 && n.y == 0 && n.z == 0 {
        Vec3 { x: 0, y: 65536, z: 0 }
    } else {
        n
    }
}

/// The unit vector of a direction, or straight up for a degenerate one
/// (which `dir_ok` rules out for traced rays).
fn unit_or_up(d: Vec3) -> (r: Vec3)
    requires
        d.bounded(0x40_0000_0000),
    ensures
        r.bounded(65536),
        !(d.x == 0 && d.y == 0 && d.z == 0) ==> sv(r) == sunit(d),
{
    if d.x == 0 && d.y == 0 && d.z == 0 {
        Vec3 { x: 0, y: 65536, z: 0 }
    } else {
        d.unit()
    }
}

/// Schlick's reflectance: exactly `schlick_of`, within the unit range
/// for the parameters the dielectric uses.
fn schlick(cosine: i64, ref_idx: i64) -> (r: i64)
    requires
        0 <= cosine <= 65536,
        16384 <= ref_idx <= 0x1_0000_0000,
    ensures
        r as int == schlick_of(cosine as int, ref_idx as int),
        -131072 <= r <= 131074,
{
    proof {
        crate::fixed::lemma_fdiv_unit(65536 - ref_idx as int, 65536 + ref_idx as int);
    }
    let r0 = crate::fixed::div_fx(65536 - ref_idx, 65536 + ref_idx);
    proof {
        crate::fixed::lemma_fmul_sq_range(r0 as int);
    }
    let r0sq = crate::fixed::mul_fx(r0, r0);
    let omc = 65536 - cosine;
    proof {
        crate::fixed::lemma_fmul_unit_range(omc as int, omc as int);
        assert((omc as int) * (omc as int) >= 0) by (nonlinear_arith);
        vstd::arithmetic::div_mod::lemma_div_is_ordered(0, (omc as int) * (omc as int), 65536);
        assert(0int / 65536 == 0);
    }
    let p2 = crate::fixed::mul_fx(omc, omc);
    proof {
        crate::fixed::lemma_fmul_unit_range(p2 as int, p2 as int);
        assert((p2 as int) * (p2 as int) >= 0) by (nonlinear_arith)
            requires
                p2 >= 0,
        ;
        vstd::arithmetic::div_mod::lemma_div_is_ordered(0, (p2 as int) * (p2 as int), 65536);
        assert(0int / 65536 == 0);
    }
    let p4 = crate::fixed::mul_fx(p2, p2);
    proof {
        crate::fixed::lemma_fmul_unit_range(p4 as int, omc as int);
        assert((p4 as int) * (omc as int) >= 0) by (nonlinear_arith)
            requires
                p4 >= 0,
                omc >= 0,
        ;
        vstd::arithmetic::div_mod::lemma_div_is_ordered(0, (p4 as int) * (omc as int), 65536);
        assert(0int / 65536 == 0);
    }
    let p5 = crate::fixed::mul_fx(p4, omc);
    proof {
        crate::fixed::lemma_fmul_unit_range(65536 - r0sq as int, p5 as int);
    }
    r0sq + crate::fixed::mul_fx(65536 - r0sq, p5)
}

/// Snell refraction of a unit direction: the perpendicular part scaled
/// by the index ratio, completed by a parallel part that keeps the
/// result near unit length.
fn refract(uv: Vec3, n: Vec3, etai_over_etat: i64) -> (r: Vec3)
    requires
        uv.bounded(65536),
        n.bounded(131072),
        0 <= etai_over_etat <= 0x1_0000_0000,
    ensures
        sv(r) == srefract(uv, n, etai_over_etat as int),
        r.bounded(0x10_0000_0000),
{
    let mcos = uv.neg().dot(n);
    let cos_theta = if mcos > 65536 {
        65536
    } else if mcos < -65536 {
        -65536
    } else {
        mcos
    };
    proof {
        crate::vec3::lemma_fmul_fits(cos_theta as int, n.x as int, 65536, 131072);
        crate::vec3::lemma_fmul_fits(cos_theta as int, n.y as int, 65536, 131072);
        crate::vec3::lemma_fmul_fits(cos_theta as int, n.z as int, 65536, 131072);
    }
    let px = crate::fixed::mul_fx_clamp(
        etai_over_etat,
        uv.x + crate::fixed::mul_fx_clamp(cos_theta, n.x),
    );
    let py = crate::fixed::mul_fx_clamp(
        etai_over_etat,
        uv.y + crate::fixed::mul_fx_clamp(cos_theta, n.y),
    );
    let pz = crate::fixed::mul_fx_clamp(
        etai_over_etat,
        uv.z + crate::fixed::mul_fx_clamp(cos_theta, n.z),
    );
    let perp = Vec3 {
        x: crate::hit::clamp_to(px, 0x8_0000),
        y: crate::hit::clamp_to(py, 0x8_0000),
        z: crate::hit::clamp_to(pz, 0x8_0000),
    };
    let psq = perp.squared_length();
    let m = if psq >= 65536 {
        0
    } else {
        65536 - psq
    };
    proof {
        crate::fixed::lemma_sqrt_floor_props((m as int) * 65536);
        assert(sqrt_floor((m as int) * 65536) <= 65536) by (nonlinear_arith)
            requires
                sqrt_floor((m as int) * 65536) >= 0,
                sqrt_floor((m as int) * 65536) * sqrt_floor((m as int) * 65536) <= (m as int)
                    * 65536,
                (m as int) * 65536 <= 65536 * 65536,
        ;
    }
    let par_len = crate::fixed::isqrt_u128((m as u128) * 65536) as i64;
    proof {
        lemma_par_fits(par_len as int);
    }
    Vec3 {
        x: perp.x - crate::fixed::mul_fx(par_len, n.x),
        y: perp.y - crate::fixed::mul_fx(par_len, n.y),
        z: perp.z - crate::fixed::mul_fx(par_len, n.z),
    }
}

/// The fuzz displacement stays within unit scale.
proof fn lemma_fuzz_fits(f: int, fz: Vec3)
    requires
        0 <= f <= 65536,
        fz.bounded(65536),
    ensures
        -65536 <= fmul(fz.x as int, f) <= 65536,
        -65536 <= fmul(fz.y as int, f) <= 65536,
        -65536 <= fmul(fz.z as int, f) <= 65536,
{
    crate::fixed::lemma_fmul_unit_range(fz.x as int, f);
    crate::fixed::lemma_fmul_unit_range(fz.y as int, f);
    crate::fixed::lemma_fmul_unit_range(fz.z as int, f);
}

/// One minus a clamped squared cosine stays in the unit interval.
proof fn lemma_sin_from_cos(c: int)
    requires
        -65536 <= c <= 65536,
    ensures
        0 <= 65536 - fmul(c, c) <= 65536,
        (65536 - fmul(c, c)) * 65536 <= 65536 * 65536,
{
    crate::fixed::lemma_fmul_sq_range(c);
    assert((65536 - fmul(c, c)) * 65536 <= 65536 * 65536) by (nonlinear_arith)
        requires
            0 <= 65536 - fmul(c, c) <= 65536,
    ;
}

/// The parallel component's products stay within unit scale.
proof fn lemma_par_fits(par: int)
    requires
        0 <= par <= 65536,
    ensures
        forall|v: int|
            -131072 <= v <= 131072 ==> -131072 - 1 <= #[trigger] fmul(par, v) <= 131072,
{
    assert forall|v: int| -131072 <= v <= 131072 implies -131072 - 1 <= #[trigger] fmul(par, v)
        <= 131072 by {
        crate::vec3::lemma_fmul_fits(par, v, 65536, 131072);
    }
}

/// A nonnegative, near-unit cosine over pi stays within twice the unit
/// interval.
proof fn lemma_cos_over_pi(c: int)
    requires
        0 <= c <= 393219,
    ensures
        0 <= fdiv(c, 205887) <= 131072,
{
    vstd::arithmetic::div_mod::lemma_div_is_ordered(0, c * 65536, 205887);
    assert(0int / 205887 == 0) by {
        vstd::arithmetic::div_mod::lemma_fundamental_div_mod_converse(0, 205887, 0, 0);
    }
    assert(c * 65536 >= 0) by (nonlinear_arith)
        requires
            c >= 0,
    ;
    assert(c * 65536 < 205887 * 131073) by (nonlinear_arith)
        requires
            c <= 393219,
    ;
    crate::fixed::lemma_div_below(c * 65536, 205887, 131073);
}

} // verus!
