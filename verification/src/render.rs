//! The Monte Carlo integrator: recursive path accumulation with
//! light-sampling for diffuse bounces and an explicit guard against
//! zero-density samples.

use crate::fixed::fdiv;
use crate::fixed::fmul;
use crate::hit::clampi;
use crate::hit::hit_matches;
use crate::hit::GHit;
use crate::hit::Hitable;
use crate::material::lambertian_pdf_of;
use crate::material::material_wf;
use crate::material::Material;
use crate::pdf::CosinePdf;
use crate::pdf::HitablePdf;
use crate::pdf::MixturePdf;
use crate::pdf::Pdf;
use crate::ray::ray_wf;
use crate::ray::Ray;
use crate::texture::arena_wf;
use crate::texture::color_ok;
use crate::texture::texture_value_model;
use crate::texture::Texture;
use crate::vec3::Vec3;
use crate::world::World;
use vstd::prelude::*;

verus! {

/// A vertical background gradient; rays that escape the scene return a
/// blend of `bottom` (looking down) and `top` (looking up).
#[derive(Clone, Copy, PartialEq, Eq, Structural, Debug)]
pub struct Background {
    pub top: Vec3,
    pub bottom: Vec3,
}

/// The gradient colours are colours.
pub open spec fn background_ok(bg: Option<Background>) -> bool {
    match bg {
        None => true,
        Some(b) => color_ok(b.top) && color_ok(b.bottom),
    }
}

/// The radiance bound the integrator clamps to: every returned channel
/// lies in `[0, CBOUND]`.
pub const CBOUND: i64 = 0x1_0000_0000;

/// Every material of the arena is sound with respect to the texture
/// arena.
pub open spec fn mats_wf(ms: Seq<Material>, ntex: int) -> bool {
    forall|i: int| 0 <= i < ms.len() ==> material_wf(#[trigger] ms[i], ntex)
}

/// A channel forced into the radiance range.
pub open spec fn sclamp(x: int) -> int {
    if x < 0 {
        0
    } else if x > 0x1_0000_0000 {
        0x1_0000_0000
    } else {
        x
    }
}

/// All three channels forced into the radiance range.
pub open spec fn clamp3(t: (int, int, int)) -> (int, int, int) {
    (sclamp(t.0), sclamp(t.1), sclamp(t.2))
}

/// A radiance triple within the clamp range.
pub open spec fn radiance3(t: (int, int, int)) -> bool {
    0 <= t.0 <= 0x1_0000_0000 && 0 <= t.1 <= 0x1_0000_0000 && 0 <= t.2 <= 0x1_0000_0000
}

/// A channel clamped into the radiance range.
fn clamp_chan(x: i64) -> (r: i64)
    ensures
        0 <= r <= 0x1_0000_0000,
        r as int == sclamp(x as int),
{
    if x < 0 {
        0
    } else if x > 0x1_0000_0000 {
        0x1_0000_0000
    } else {
        x
    }
}

/// A channel forced into the colour range.
pub open spec fn clamp_color(x: int) -> int {
    if x < 0 {
        0
    } else if x > 1048576 {
        1048576
    } else {
        x
    }
}

/// The blend an escaped ray sees: `bottom` weighted down to `top` as
/// the unit direction's height climbs from minus one to one; a
/// degenerate direction sees `bottom`.
pub open spec fn background_model(b: Background, ra: Ray) -> (int, int, int) {
    if ra.direction.x == 0 && ra.direction.y == 0 && ra.direction.z == 0 {
        crate::vec3::sv(b.bottom)
    } else {
        let uy = crate::fixed::fdiv(ra.direction.y as int, crate::vec3::norm_of(ra.direction));
        let t = (uy + 65536) / 2;
        let omt = 65536 - t;
        (
            clamp_color(fmul(b.bottom.x as int, omt) + fmul(b.top.x as int, t)),
            clamp_color(fmul(b.bottom.y as int, omt) + fmul(b.top.y as int, t)),
            clamp_color(fmul(b.bottom.z as int, omt) + fmul(b.top.z as int, t)),
        )
    }
}

/// The background's colour along a ray: a blend keyed on the unit
/// direction's height (exactly `background_model`); black when no
/// background is set.
pub fn background_color(bg: &Option<Background>, ra: &Ray) -> (r: Vec3)
    requires
        background_ok(*bg),
        ra.direction.bounded(0x40_0000_0000),
    ensures
        color_ok(r),
        bg is None ==> r == (Vec3 { x: 0i64, y: 0i64, z: 0i64 }),
        forall|b: Background| *bg == Some(b) ==> crate::vec3::sv(r) == background_model(b, *ra),
{
    match bg {
        None => Vec3 { x: 0, y: 0, z: 0 },
        Some(b) => {
            if ra.direction.x == 0 && ra.direction.y == 0 && ra.direction.z == 0 {
                return b.bottom;
            }
            let u = ra.direction.unit();
            let t = (((u.y + 65536) as u64) / 2) as i64;
            proof {
                lemma_blend_fits(b.top, b.bottom, t as int);
            }
            let omt = 65536 - t;
            Vec3 {
                x: clamp_color_chan(
                    crate::fixed::mul_fx(b.bottom.x, omt) + crate::fixed::mul_fx(b.top.x, t),
                ),
                y: clamp_color_chan(
                    crate::fixed::mul_fx(b.bottom.y, omt) + crate::fixed::mul_fx(b.top.y, t),
                ),
                z: clamp_color_chan(
                    crate::fixed::mul_fx(b.bottom.z, omt) + crate::fixed::mul_fx(b.top.z, t),
                ),
            }
        },
    }
}

/// A channel clamped into the colour range.
fn clamp_color_chan(x: i64) -> (r: i64)
    ensures
        0 <= r <= 1048576,
        r as int == clamp_color(x as int),
{
    if x < 0 {
        0
    } else if x > 1048576 {
        1048576
    } else {
        x
    }
}

/// Blending two colours with unit-interval weights stays in range.
proof fn lemma_blend_fits(a: Vec3, b: Vec3, t: int)
    requires
        color_ok(a),
        color_ok(b),
        0 <= t <= 65536,
    ensures
        forall|c: int, w: int|
            0 <= c <= 1048576 && 0 <= w <= 65536 ==> 0 <= #[trigger] fmul(c, w) <= 1048576,
{
    assert forall|c: int, w: int| 0 <= c <= 1048576 && 0 <= w <= 65536 implies 0 <= #[trigger] fmul(
        c,
        w,
    ) <= 1048576 by {
        crate::vec3::lemma_fmul_fits(c, w, 1048576, 65536);
        vstd::arithmetic::div_mod::lemma_div_is_ordered(0, c * w, 65536);
        assert(c * w >= 0) by (nonlinear_arith)
            requires
                c >= 0,
                w >= 0,
        ;
        assert(0int / 65536 == 0);
    }
}

/// The hit is determined by the scene alone: positive depth, a usable
/// direction, and no volumetric media (whose interactions are random).
pub open spec fn determined(wor: World, ra: Ray, depth: u32) -> bool {
    depth > 0 && crate::vec3::nsq(ra.direction) >= 65536 && wor.root.media_free()
}

/// The record the integrator works from, where it is determined.
pub open spec fn determined_hit(wor: World, ra: Ray, depth: u32) -> Option<GHit> {
    if determined(wor, ra, depth) {
        wor.root.model(ra, 66, 0x100_0000_0000)
    } else {
        None
    }
}

/// The texture a material is tinted by (zero for materials without
/// one).
pub open spec fn albedo_of(m: Material) -> int {
    match m {
        Material::Lambertian(l) => l.albedo as int,
        Material::Metal(mt) => mt.albedo as int,
        _ => 0int,
    }
}

/// The light the struck surface adds of its own: an emitter's texture
/// colour on its front face, black for everything else.
pub open spec fn emitted_at(m: Material, g: GHit, texs: Seq<Texture>) -> (int, int, int) {
    match m {
        Material::DiffuseLight(dl) => if g.front_face {
            texture_value_model(texs, dl.emit as int, 0, 0, g.p)
        } else {
            (0int, 0int, 0int)
        },
        _ => (0int, 0int, 0int),
    }
}

/// The hit's oriented normal, as a vector value.
pub open spec fn normal_of_hit(g: GHit) -> Vec3 {
    Vec3 { x: g.normal.0 as i64, y: g.normal.1 as i64, z: g.normal.2 as i64 }
}

/// The hit's point pulled into the scene bound, as the next origin.
pub open spec fn origin_of_hit(g: GHit) -> Vec3 {
    Vec3 {
        x: clampi(g.p.0, 0x40_0000_0000) as i64,
        y: clampi(g.p.1, 0x40_0000_0000) as i64,
        z: clampi(g.p.2, 0x40_0000_0000) as i64,
    }
}

/// The density of the half-light, half-cosine mixture the diffuse
/// bounce samples from.
pub open spec fn light_mix_value(light: Hitable, origin: Vec3, normal: Vec3, d: Vec3) -> int {
    fmul(
        32768,
        clampi(
            match light {
                Hitable::XzRect(rect) => crate::hit::xz_rect_pdf_model(rect, origin, d),
                _ => 0int,
            },
            0x1_0000_0000_0000,
        ),
    ) + fmul(32768, crate::pdf::cosine_pdf_value(crate::onb::onb_of(normal).w, d))
}

/// The diffuse estimate for one bounce, exactly as combined: emitted
/// light plus the attenuated, density-weighted recursive radiance over
/// the sample density, clamped at every step.
pub open spec fn diffuse_est(
    e: (int, int, int),
    att: (int, int, int),
    spdf: int,
    rc: (int, int, int),
    pv: int,
) -> (int, int, int) {
    (
        sclamp(e.0 + sclamp(crate::fixed::clamp64(fdiv(fmul(fmul(att.0, spdf), rc.0), pv)))),
        sclamp(e.1 + sclamp(crate::fixed::clamp64(fdiv(fmul(fmul(att.1, spdf), rc.1), pv)))),
        sclamp(e.2 + sclamp(crate::fixed::clamp64(fdiv(fmul(fmul(att.2, spdf), rc.2), pv)))),
    )
}

/// One specular outcome: emitted light plus the attenuated recursive
/// radiance, clamped.
pub open spec fn specular_outcome(
    att: (int, int, int),
    e: (int, int, int),
    rc: (int, int, int),
    rr: (int, int, int),
) -> bool {
    &&& radiance3(rc)
    &&& rr == clamp3(
        (e.0 + fmul(att.0, rc.0), e.1 + fmul(att.1, rc.1), e.2 + fmul(att.2, rc.2)),
    )
}

/// One diffuse outcome: some sampled direction of positive mixture
/// density, some recursive radiance, combined by the estimate formula
/// with the material's own scattering density at that direction.
pub open spec fn diffuse_outcome(
    light: Hitable,
    albedo: int,
    m: Material,
    g: GHit,
    texs: Seq<Texture>,
    d: Vec3,
    rc: (int, int, int),
    rr: (int, int, int),
) -> bool {
    let att = texture_value_model(texs, albedo, g.fu, g.fv, g.p);
    let pv = light_mix_value(light, origin_of_hit(g), normal_of_hit(g), d);
    &&& radiance3(rc)
    &&& pv > 0
    &&& rr == diffuse_est(
        emitted_at(m, g, texs),
        att,
        lambertian_pdf_of(normal_of_hit(g), d),
        rc,
        pv,
    )
}

/// Clamping preserves order.
proof fn lemma_sclamp_le(a: int, b: int)
    requires
        a <= b,
    ensures
        sclamp(a) <= sclamp(b),
{
}

/// The diffuse estimate of a black recursion under no emission is
/// black.
proof fn lemma_diffuse_zero(att: (int, int, int), spdf: int, pv: int)
    requires
        pv >= 1,
    ensures
        diffuse_est((0int, 0int, 0int), att, spdf, (0int, 0int, 0int), pv) == (0int, 0int, 0int),
{
    assert(fmul(att.0, spdf) * 0 == 0) by (nonlinear_arith);
    assert(fmul(att.1, spdf) * 0 == 0) by (nonlinear_arith);
    assert(fmul(att.2, spdf) * 0 == 0) by (nonlinear_arith);
    assert(0int / 65536 == 0);
    assert(fdiv(0, pv) == 0) by {
        vstd::arithmetic::div_mod::lemma_fundamental_div_mod_converse(0, pv, 0, 0);
    }
}

/// The estimated radiance carried back along `ra`.
///
/// The estimate is a random variable, so the contract states what
/// holds of every outcome: each channel lies in `[0, CBOUND]`; a depth
/// of zero, or a degenerate direction (below the quadratic's
/// threshold, a cut this contract states explicitly), yields black; an
/// escaped ray sees exactly the background. Wherever the hit is
/// determined by the scene alone, the result is pinned per material:
/// an emitter returns exactly its clamped emitted light, every result
/// dominates the clamped emitted light channelwise, a specular bounce
/// is the emitted light plus the exactly-attenuated radiance of some
/// recursive outcome, and a diffuse bounce is either the clamped
/// emitted light (the degenerate-sample guards) or the
/// density-weighted estimate at some sampled direction of positive
/// mixture density — which at depth one collapses to black. A zero or
/// negative sample density contributes nothing, per the explicit
/// guard.
#[verifier::rlimit(100)]
pub fn ray_color(
    ra: &Ray,
    wor: &World,
    light: &Hitable,
    bg: &Option<Background>,
    mats: &Vec<Material>,
    texs: &Vec<Texture>,
    depth: u32,
) -> (r: Vec3)
    requires
        wor.root.wf(),
        wor.root.mats_in(mats@.len() as int),
        light.wf(),
        mats_wf(mats@, texs@.len() as int),
        arena_wf(texs@),
        background_ok(*bg),
        ray_wf(*ra),
        ra.direction.bounded(0x10_0000_0000),
    ensures
        0 <= r.x <= 0x1_0000_0000,
        0 <= r.y <= 0x1_0000_0000,
        0 <= r.z <= 0x1_0000_0000,
        depth == 0 ==> r == (Vec3 { x: 0i64, y: 0i64, z: 0i64 }),
        depth > 0 && crate::vec3::nsq(ra.direction) < 65536 ==> r == (Vec3 {
            x: 0i64,
            y: 0i64,
            z: 0i64,
        }),
        determined(*wor, *ra, depth) && wor.root.model(*ra, 66, 0x100_0000_0000) is None ==> (
        match *bg {
            None => r == (Vec3 { x: 0i64, y: 0i64, z: 0i64 }),
            Some(b) => crate::vec3::sv(r) == background_model(b, *ra),
        }),
        determined_hit(*wor, *ra, depth) matches Some(g) ==> (mats@[g.mat as int] is DiffuseLight
            ==> crate::vec3::sv(r) == clamp3(emitted_at(mats@[g.mat as int], g, texs@))),
        determined_hit(*wor, *ra, depth) matches Some(g) ==> {
            &&& r.x as int >= clamp3(emitted_at(mats@[g.mat as int], g, texs@)).0
            &&& r.y as int >= clamp3(emitted_at(mats@[g.mat as int], g, texs@)).1
            &&& r.z as int >= clamp3(emitted_at(mats@[g.mat as int], g, texs@)).2
        },
        determined_hit(*wor, *ra, depth) matches Some(g) ==> (mats@[g.mat as int] is Lambertian
            && depth == 1 ==> r == (Vec3 { x: 0i64, y: 0i64, z: 0i64 })),
        determined_hit(*wor, *ra, depth) matches Some(g) ==> (mats@[g.mat as int] is Dielectric
            ==> exists|rc: (int, int, int)|
            #[trigger] specular_outcome(
                (65536int, 65536int, 65536int),
                emitted_at(mats@[g.mat as int], g, texs@),
                rc,
                crate::vec3::sv(r),
            )),
        determined_hit(*wor, *ra, depth) matches Some(g) ==> (mats@[g.mat as int] is Metal ==> (
        crate::vec3::sv(r) == clamp3(emitted_at(mats@[g.mat as int], g, texs@)) || exists|
            rc: (int, int, int),
        |
            #[trigger] specular_outcome(
                crate::texture::texture_value_model(
                    texs@,
                    albedo_of(mats@[g.mat as int]),
                    g.fu,
                    g.fv,
                    g.p,
                ),
                emitted_at(mats@[g.mat as int], g, texs@),
                rc,
                crate::vec3::sv(r),
            ))),
        determined_hit(*wor, *ra, depth) matches Some(g) ==> (mats@[g.mat as int] is Lambertian
            ==> (crate::vec3::sv(r) == clamp3(emitted_at(mats@[g.mat as int], g, texs@)) || exists|
            d: Vec3,
            rc: (int, int, int),
        |
            #[trigger] diffuse_outcome(
                *light,
                albedo_of(mats@[g.mat as int]),
                mats@[g.mat as int],
                g,
                texs@,
                d,
                rc,
                crate::vec3::sv(r),
            ))),
    decreases depth,
{
    if depth == 0 {
        return Vec3 { x: 0, y: 0, z: 0 };
    }
    if ra.direction.squared_length() < 1 {
        // A degenerate ray carries no light.
        return Vec3 { x: 0, y: 0, z: 0 };
    }
    proof {
        crate::hit::lemma_nsq_large(ra.direction);
    }
    let hit_opt = wor.hit(ra, 66, 0x100_0000_0000);
    let ghost gmodel = wor.root.model(*ra, 66, 0x100_0000_0000);
    let h = match hit_opt {
        None => {
            let c = background_color(bg, ra);
            return Vec3 { x: c.x, y: c.y, z: c.z };
        },
        Some(h) => h,
    };
    proof {
        assert(wor.root.mats_in(mats@.len() as int));
        if wor.root.media_free() {
            assert(gmodel is Some && hit_matches(h, gmodel->0));
        }
    }
    let mat = mats[h.mat];
    let emitted = mat.emitted(&h, 0, 0, h.p, texs);
    proof {
        assert(material_wf(mats@[h.mat as int], texs@.len() as int));
        if wor.root.media_free() {
            let g = gmodel->0;
            assert(mats@[g.mat as int] == mat);
            assert(crate::vec3::sv(emitted) == emitted_at(mats@[g.mat as int], g, texs@));
        }
    }
    let sres = match mat.scatter(ra, &h, texs) {
        None => {
            let res = Vec3 {
                x: clamp_chan(emitted.x),
                y: clamp_chan(emitted.y),
                z: clamp_chan(emitted.z),
            };
            proof {
                if wor.root.media_free() {
                    let g = gmodel->0;
                    // Diffuse and clear surfaces always scatter: this
                    // exit is an emitter or an absorbed metal ray.
                    assert(!(mats@[g.mat as int] matches Material::Lambertian(_)));
                    assert(!(mats@[g.mat as int] matches Material::Dielectric(_)));
                    assert(crate::vec3::sv(res) == clamp3(
                        emitted_at(mats@[g.mat as int], g, texs@),
                    ));
                }
            }
            return res;
        },
        Some(s) => s,
    };
    proof {
        lemma_scatter_color(mat, sres, hit_opt->0, *ra);
    }
    if sres.is_specular {
        let rc = ray_color(&sres.scattered, wor, light, bg, mats, texs, depth - 1);
        proof {
            lemma_attenuate_fits();
        }
        let res = Vec3 {
            x: clamp_chan(emitted.x + crate::fixed::mul_fx(sres.attenuation.x, rc.x)),
            y: clamp_chan(emitted.y + crate::fixed::mul_fx(sres.attenuation.y, rc.y)),
            z: clamp_chan(emitted.z + crate::fixed::mul_fx(sres.attenuation.z, rc.z)),
        };
        proof {
            if wor.root.media_free() {
                let g = gmodel->0;
                assert(!(mats@[g.mat as int] matches Material::Lambertian(_)));
                assert(!(mats@[g.mat as int] matches Material::DiffuseLight(_)));
                let e = emitted_at(mats@[g.mat as int], g, texs@);
                if mats@[g.mat as int] matches Material::Dielectric(_) {
                    assert(specular_outcome(
                        (65536int, 65536int, 65536int),
                        e,
                        crate::vec3::sv(rc),
                        crate::vec3::sv(res),
                    ));
                }
                match mats@[g.mat as int] {
                    Material::Metal(mt) => {
                        assert(albedo_of(mats@[g.mat as int]) == mt.albedo as int);
                        assert(specular_outcome(
                            crate::texture::texture_value_model(
                                texs@,
                                albedo_of(mats@[g.mat as int]),
                                g.fu,
                                g.fv,
                                g.p,
                            ),
                            e,
                            crate::vec3::sv(rc),
                            crate::vec3::sv(res),
                        ));
                    },
                    _ => {},
                }
                lemma_sclamp_le(
                    emitted.x as int,
                    emitted.x + fmul(sres.attenuation.x as int, rc.x as int),
                );
                lemma_sclamp_le(
                    emitted.y as int,
                    emitted.y + fmul(sres.attenuation.y as int, rc.y as int),
                );
                lemma_sclamp_le(
                    emitted.z as int,
                    emitted.z + fmul(sres.attenuation.z as int, rc.z as int),
                );
            }
        }
        return res;
    }
    if h.normal.x == 0 && h.normal.y == 0 && h.normal.z == 0 {
        let res = Vec3 {
            x: clamp_chan(emitted.x),
            y: clamp_chan(emitted.y),
            z: clamp_chan(emitted.z),
        };
        proof {
            lemma_lambertian_fallback(*wor, *ra, gmodel, mats@, texs@, sres, emitted, res);
        }
        return res;
    }
    let porig = h.p_clamped();
    let p0 = Pdf::Hitable(HitablePdf { origin: porig, ptr: Box::new(light.clone()) });
    proof {
        assert(p0.wf());
    }
    let p1 = Pdf::Cosine(CosinePdf::new(h.normal));
    proof {
        assert(p1.wf());
    }
    let mix = Pdf::Mixture(
        MixturePdf { p0: Box::new(p0), p1: Box::new(p1), d0: 32768, d1: 32768 },
    );
    proof {
        assert(mix.wf());
    }
    let d = mix.generate();
    let scattered = Ray { origin: porig, direction: d };
    let pdf_value = mix.value(d);
    if pdf_value <= 0 {
        // A zero-density sample contributes no radiance.
        let res = Vec3 {
            x: clamp_chan(emitted.x),
            y: clamp_chan(emitted.y),
            z: clamp_chan(emitted.z),
        };
        proof {
            lemma_lambertian_fallback(*wor, *ra, gmodel, mats@, texs@, sres, emitted, res);
        }
        return res;
    }
    let spdf = mat.scattering_pdf(ra, &h, &scattered);
    let rc = ray_color(&scattered, wor, light, bg, mats, texs, depth - 1);
    let res = combine_diffuse(emitted, sres.attenuation, spdf, rc, pdf_value);
    proof {
        if wor.root.media_free() {
            let g = gmodel->0;
            assert(!(mats@[g.mat as int] matches Material::Metal(_)));
            assert(!(mats@[g.mat as int] matches Material::Dielectric(_)));
            assert(!(mats@[g.mat as int] matches Material::DiffuseLight(_)));
            // The sample density the estimate divides by is exactly the
            // half-light, half-cosine mixture's model.
            let m = mix->Mixture_0;
            let hp = (*m.p0)->Hitable_0;
            assert(hp.origin == origin_of_hit(g));
            assert(*hp.ptr == *light);
            assert(normal_of_hit(g) == h.normal);
            let cp = (*m.p1)->Cosine_0;
            assert(cp.uvw == crate::onb::onb_of(h.normal));
            assert((*m.p1).value_model(d) == crate::pdf::cosine_pdf_value(
                crate::onb::onb_of(normal_of_hit(g)).w,
                d,
            ));
            assert(mix.value_model(d) == fmul(32768, (*m.p0).value_model(d)) + fmul(
                32768,
                (*m.p1).value_model(d),
            ));
            assert(pdf_value as int == light_mix_value(
                *light,
                origin_of_hit(g),
                normal_of_hit(g),
                d,
            ));
            assert(spdf as int == lambertian_pdf_of(normal_of_hit(g), d));
            match mats@[g.mat as int] {
                Material::Lambertian(l) => {
                    assert(diffuse_outcome(
                        *light,
                        albedo_of(mats@[g.mat as int]),
                        mats@[g.mat as int],
                        g,
                        texs@,
                        d,
                        crate::vec3::sv(rc),
                        crate::vec3::sv(res),
                    ));
                    if depth == 1 {
                        assert(crate::vec3::sv(rc) == (0int, 0int, 0int));
                        assert(crate::vec3::sv(emitted) == (0int, 0int, 0int));
                        lemma_diffuse_zero(
                            crate::vec3::sv(sres.attenuation),
                            spdf as int,
                            pdf_value as int,
                        );
                        assert(crate::vec3::sv(res) == (0int, 0int, 0int));
                        assert(res == (Vec3 { x: 0i64, y: 0i64, z: 0i64 }));
                    }
                    lemma_sclamp_le(
                        emitted.x as int,
                        emitted.x + sclamp(crate::fixed::clamp64(fdiv(
                            fmul(fmul(sres.attenuation.x as int, spdf as int), rc.x as int),
                            pdf_value as int,
                        ))),
                    );
                    lemma_sclamp_le(
                        emitted.y as int,
                        emitted.y + sclamp(crate::fixed::clamp64(fdiv(
                            fmul(fmul(sres.attenuation.y as int, spdf as int), rc.y as int),
                            pdf_value as int,
                        ))),
                    );
                    lemma_sclamp_le(
                        emitted.z as int,
                        emitted.z + sclamp(crate::fixed::clamp64(fdiv(
                            fmul(fmul(sres.attenuation.z as int, spdf as int), rc.z as int),
                            pdf_value as int,
                        ))),
                    );
                },
                _ => {},
            }
        }
    }
    res
}

/// At the diffuse fall-back exits (a degenerate normal or a
/// zero-density sample), the only material that can be in play is the
/// diffuse one, its emission is black, and the clamped emitted result
/// meets every hit-case clause.
proof fn lemma_lambertian_fallback(
    wor: World,
    ra: Ray,
    gmodel: Option<GHit>,
    mats: Seq<Material>,
    texs: Seq<Texture>,
    sres: crate::material::ScatterResult,
    emitted: Vec3,
    res: Vec3,
)
    requires
        wor.root.media_free() ==> {
            &&& gmodel == wor.root.model(ra, 66, 0x100_0000_0000)
            &&& gmodel is Some
            &&& crate::vec3::sv(emitted) == emitted_at(
                mats[gmodel->0.mat as int],
                gmodel->0,
                texs,
            )
            &&& (mats[gmodel->0.mat as int] matches Material::Lambertian(_))
        },
        res.x as int == sclamp(emitted.x as int),
        res.y as int == sclamp(emitted.y as int),
        res.z as int == sclamp(emitted.z as int),
    ensures
        wor.root.media_free() ==> crate::vec3::sv(res) == clamp3(
            emitted_at(mats[gmodel->0.mat as int], gmodel->0, texs),
        ) && res == (Vec3 { x: 0i64, y: 0i64, z: 0i64 }),
{
    if wor.root.media_free() {
        assert(emitted_at(mats[gmodel->0.mat as int], gmodel->0, texs) == (0int, 0int, 0int));
    }
}

/// The diffuse estimate for one bounce: the emitted light plus the
/// attenuated, density-weighted recursive radiance over the sample's
/// mixture density, every channel clamped into the radiance range.
fn combine_diffuse(emitted: Vec3, atten: Vec3, spdf: i64, rc: Vec3, pdf_value: i64) -> (r: Vec3)
    requires
        color_ok(emitted),
        color_ok(atten),
        0 <= spdf <= 131072,
        pdf_value >= 1,
        0 <= rc.x <= 0x1_0000_0000,
        0 <= rc.y <= 0x1_0000_0000,
        0 <= rc.z <= 0x1_0000_0000,
    ensures
        crate::vec3::sv(r) == diffuse_est(
            crate::vec3::sv(emitted),
            crate::vec3::sv(atten),
            spdf as int,
            crate::vec3::sv(rc),
            pdf_value as int,
        ),
        0 <= r.x <= 0x1_0000_0000,
        0 <= r.y <= 0x1_0000_0000,
        0 <= r.z <= 0x1_0000_0000,
{
    proof {
        lemma_weight_fits();
        lemma_contrib_fits(pdf_value as int);
    }
    let wx = crate::fixed::mul_fx(atten.x, spdf);
    let wy = crate::fixed::mul_fx(atten.y, spdf);
    let wz = crate::fixed::mul_fx(atten.z, spdf);
    let cx = crate::fixed::div_fx_clamp(crate::fixed::mul_fx(wx, rc.x), pdf_value);
    let cy = crate::fixed::div_fx_clamp(crate::fixed::mul_fx(wy, rc.y), pdf_value);
    let cz = crate::fixed::div_fx_clamp(crate::fixed::mul_fx(wz, rc.z), pdf_value);
    Vec3 {
        x: clamp_chan(emitted.x + clamp_chan(cx)),
        y: clamp_chan(emitted.y + clamp_chan(cy)),
        z: clamp_chan(emitted.z + clamp_chan(cz)),
    }
}

/// Any scatter result of a sound material carries a colour for its
/// attenuation.
proof fn lemma_scatter_color(mat: Material, s: crate::material::ScatterResult, h: crate::hit::HitResult, ra: Ray)
    requires
        match mat {
            Material::Lambertian(_) => color_ok(s.attenuation),
            Material::Metal(_) => color_ok(s.attenuation),
            Material::Dielectric(_) => s.attenuation == (Vec3 {
                x: 65536i64,
                y: 65536i64,
                z: 65536i64,
            }),
            Material::DiffuseLight(_) => true,
        },
    ensures
        !(mat matches Material::DiffuseLight(_)) ==> color_ok(s.attenuation),
{
}

/// Attenuating a bounded radiance by a colour stays within the bound.
proof fn lemma_attenuate_fits()
    ensures
        forall|a: int, c: int|
            0 <= a <= 1048576 && 0 <= c <= 0x1_0000_0000 ==> 0 <= #[trigger] fmul(a, c)
                <= 0x10_0000_0000,
{
    assert forall|a: int, c: int|
        0 <= a <= 1048576 && 0 <= c <= 0x1_0000_0000 implies 0 <= #[trigger] fmul(a, c)
        <= 0x10_0000_0000 by {
        crate::vec3::lemma_fmul_fits(a, c, 1048576, 0x1_0000_0000);
        vstd::arithmetic::div_mod::lemma_div_is_ordered(0, a * c, 65536);
        assert(a * c >= 0) by (nonlinear_arith)
            requires
                a >= 0,
                c >= 0,
        ;
        assert(0int / 65536 == 0);
    }
}

/// Weighting an attenuation by a scattering density stays small.
proof fn lemma_weight_fits()
    ensures
        forall|a: int, s: int|
            0 <= a <= 1048576 && 0 <= s <= 131072 ==> 0 <= #[trigger] fmul(a, s) <= 0x20_0000,
{
    assert forall|a: int, s: int|
        0 <= a <= 1048576 && 0 <= s <= 131072 implies 0 <= #[trigger] fmul(a, s) <= 0x20_0000 by {
        crate::vec3::lemma_fmul_fits(a, s, 1048576, 131072);
        vstd::arithmetic::div_mod::lemma_div_is_ordered(0, a * s, 65536);
        assert(a * s >= 0) by (nonlinear_arith)
            requires
                a >= 0,
                s >= 0,
        ;
        assert(0int / 65536 == 0);
    }
}

/// Dividing a weighted radiance by a positive density keeps it
/// representable and nonnegative.
proof fn lemma_contrib_fits(pdf: int)
    requires
        pdf >= 1,
    ensures
        forall|w: int, c: int|
            0 <= w <= 0x20_0000 && 0 <= c <= 0x1_0000_0000 ==> 0 <= #[trigger] fmul(w, c)
                <= 0x20_0000_0000_0000,
{
    assert forall|w: int, c: int|
        0 <= w <= 0x20_0000 && 0 <= c <= 0x1_0000_0000 implies 0 <= #[trigger] fmul(w, c)
        <= 0x20_0000_0000_0000 by {
        crate::vec3::lemma_fmul_fits(w, c, 0x20_0000, 0x1_0000_0000);
        vstd::arithmetic::div_mod::lemma_div_is_ordered(0, w * c, 65536);
        assert(w * c >= 0) by (nonlinear_arith)
            requires
                w >= 0,
                c >= 0,
        ;
        assert(0int / 65536 == 0);
    }
}

/// A channel forced into the unit range, for averaging samples.
pub open spec fn unit_clamp(x: int) -> int {
    if x < 0 {
        0
    } else if x > 65536 {
        65536
    } else {
        x
    }
}

/// One channel of the finished pixel: the per-sample average, clamped
/// to the unit range, gamma-corrected by the integer square root at
/// the fixed scale, and scaled to eight bits.
pub open spec fn finished_channel(sum: int, samples: int) -> int
    recommends
        0 <= sum,
        1 <= samples,
{
    let avg = sum / samples;
    let c = if avg > 65536 {
        65536
    } else {
        avg
    };
    (crate::fixed::sqrt_floor(c * 65536) * 255) / 65536
}

/// Fold one traced sample into a running pixel total: each channel
/// clamped to the unit range, then added.
pub fn accumulate_sample(acc: Vec3, co: Vec3) -> (r: Vec3)
    requires
        0 <= acc.x <= 0x1000_0000_0000,
        0 <= acc.y <= 0x1000_0000_0000,
        0 <= acc.z <= 0x1000_0000_0000,
    ensures
        r.x as int == acc.x + unit_clamp(co.x as int),
        r.y as int == acc.y + unit_clamp(co.y as int),
        r.z as int == acc.z + unit_clamp(co.z as int),
{
    Vec3 {
        x: acc.x + clamp_unit(co.x),
        y: acc.y + clamp_unit(co.y),
        z: acc.z + clamp_unit(co.z),
    }
}

/// A channel clamped into the unit range.
fn clamp_unit(x: i64) -> (r: i64)
    ensures
        r as int == unit_clamp(x as int),
{
    if x < 0 {
        0
    } else if x > 65536 {
        65536
    } else {
        x
    }
}

/// Average the accumulated channel over the sample count, clamp to the
/// unit range, apply square-root gamma, and scale to eight bits:
/// exactly `finished_channel`.
pub fn finish_channel(sum: i64, samples: i64) -> (r: u8)
    requires
        0 <= sum,
        1 <= samples,
    ensures
        r as int == finished_channel(sum as int, samples as int),
{
    let avg: u64 = (sum as u64) / (samples as u64);
    let c: u64 = if avg > 65536 {
        65536
    } else {
        avg
    };
    let g: u64 = crate::fixed::isqrt_u128((c as u128) * 65536);
    proof {
        assert(g <= 65536) by (nonlinear_arith)
            requires
                (g as int) * (g as int) <= (c as int) * 65536,
                c <= 65536,
        ;
        assert((g as int) * 255 <= 65536 * 255) by (nonlinear_arith)
            requires
                0 <= g <= 65536,
        ;
        vstd::arithmetic::div_mod::lemma_div_is_ordered((g as int) * 255, 65536int * 255, 65536);
        assert((65536int * 255) / 65536 == 255) by {
            vstd::arithmetic::div_mod::lemma_fundamental_div_mod_converse(
                65536int * 255,
                65536,
                255,
                0,
            );
        }
        assert((g as int) * 255 >= 0) by (nonlinear_arith)
            requires
                g >= 0,
        ;
        vstd::arithmetic::div_mod::lemma_div_is_ordered(0, (g as int) * 255, 65536);
        assert(0int / 65536 == 0);
    }
    ((g * 255) / 65536) as u8
}

/// The finished eight-bit pixel for accumulated color channels:
/// `finished_channel` on each.
pub fn finish_pixel(acc: Vec3, samples: i64) -> (r: (u8, u8, u8))
    requires
        0 <= acc.x,
        0 <= acc.y,
        0 <= acc.z,
        1 <= samples,
    ensures
        r.0 as int == finished_channel(acc.x as int, samples as int),
        r.1 as int == finished_channel(acc.y as int, samples as int),
        r.2 as int == finished_channel(acc.z as int, samples as int),
{
    (finish_channel(acc.x, samples), finish_channel(acc.y, samples), finish_channel(acc.z, samples))
}

} // verus!
