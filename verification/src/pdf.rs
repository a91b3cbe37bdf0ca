//! Importance-sampling strategies: a direction generator paired with
//! the density it draws from.

use crate::fixed::fdiv;
use crate::hit::sdot3;
use crate::hit::Hitable;
use crate::onb::onb_of;
use crate::onb::onb_wf;
use crate::onb::sunit;
use crate::onb::ONB;
use crate::vec3::sv;
use crate::vec3::Vec3;
use vstd::prelude::*;

verus! {

/// Cosine-weighted sampling about a surface normal.
#[derive(Clone, Copy, PartialEq, Eq, Structural, Debug)]
pub struct CosinePdf {
    pub uvw: ONB,
}

/// Sampling toward a target shape.
#[derive(Debug)]
pub struct HitablePdf {
    pub origin: Vec3,
    pub ptr: Box<Hitable>,
}

/// A convex combination of two strategies; the weights must sum to one
/// at the caller's discretion (they are not normalised here).
#[derive(Debug)]
pub struct MixturePdf {
    pub p0: Box<Pdf>,
    pub p1: Box<Pdf>,
    pub d0: i64,
    pub d1: i64,
}

/// Any of the sampling strategies.
#[derive(Debug)]
pub enum Pdf {
    Cosine(CosinePdf),
    Hitable(HitablePdf),
    Mixture(MixturePdf),
}

/// The density the cosine strategy reports for a direction: the cosine
/// against the frame's vertical over pi, clamped at zero.
pub open spec fn cosine_pdf_value(w: Vec3, dir: Vec3) -> int {
    if dir.x == 0 && dir.y == 0 && dir.z == 0 {
        0
    } else {
        let c = sdot3(sunit(dir), sv(w));
        let v = fdiv(c, 205887);
        if v < 0 {
            0
        } else {
            v
        }
    }
}

impl CosinePdf {
    /// The strategy about the normal `n`.
    pub fn new(n: Vec3) -> (r: CosinePdf)
        requires
            n.bounded(0x40_0000_0000),
            n.x != 0 || n.y != 0 || n.z != 0,
        ensures
            r.uvw == onb_of(n),
            onb_wf(r.uvw),
    {
        CosinePdf { uvw: ONB::build_from_w(n) }
    }
}

/// `r` is the frame image of the upper-hemisphere sample `s`.
pub open spec fn cosine_sample_image(b: ONB, s: Vec3, r: Vec3) -> bool {
    &&& s.bounded(65536)
    &&& 256 <= s.z <= 65536
    &&& sv(r) == (
        crate::fixed::fmul(b.u.x as int, s.x as int) + crate::fixed::fmul(b.v.x as int, s.y as int)
            + crate::fixed::fmul(b.w.x as int, s.z as int),
        crate::fixed::fmul(b.u.y as int, s.x as int) + crate::fixed::fmul(b.v.y as int, s.y as int)
            + crate::fixed::fmul(b.w.y as int, s.z as int),
        crate::fixed::fmul(b.u.z as int, s.x as int) + crate::fixed::fmul(b.v.z as int, s.y as int)
            + crate::fixed::fmul(b.w.z as int, s.z as int),
    )
}

impl Pdf {
    /// The directions the generator can hand back: the cosine strategy
    /// returns the frame image of some upper-hemisphere sample, the
    /// target strategy a direction toward some point of the target
    /// rectangle (or the fixed fallback for untargeted shapes), and the
    /// mixture one of its components' outcomes.
    pub open spec fn generated_ok(self, r: Vec3) -> bool
        decreases self,
    {
        match self {
            Pdf::Cosine(c) => exists|s: Vec3| #[trigger] cosine_sample_image(c.uvw, s, r),
            Pdf::Hitable(h) => match *h.ptr {
                Hitable::XzRect(rect) => exists|px: int, pz: int|
                    #[trigger] crate::hit::rect_sample_dir(rect, h.origin, px, pz, r),
                _ => r == (Vec3 { x: 65536i64, y: 0i64, z: 0i64 }),
            },
            Pdf::Mixture(m) => m.p0.generated_ok(r) || m.p1.generated_ok(r),
        }
    }

    /// The density the strategy reports for a direction, as a function
    /// of the strategy and the direction alone: the cosine formula, the
    /// clamped target-shape density, or the weighted mixture.
    pub open spec fn value_model(self, dir: Vec3) -> int
        decreases self,
    {
        match self {
            Pdf::Cosine(c) => cosine_pdf_value(c.uvw.w, dir),
            Pdf::Hitable(h) => crate::hit::clampi(
                match *h.ptr {
                    Hitable::XzRect(r) => crate::hit::xz_rect_pdf_model(r, h.origin, dir),
                    _ => 0,
                },
                0x1_0000_0000_0000,
            ),
            Pdf::Mixture(m) => crate::fixed::fmul(m.d0 as int, m.p0.value_model(dir))
                + crate::fixed::fmul(m.d1 as int, m.p1.value_model(dir)),
        }
    }

    /// Structurally sound: bounded frames, bounded weights, sound
    /// targets.
    pub open spec fn wf(self) -> bool
        decreases self,
    {
        match self {
            Pdf::Cosine(c) => onb_wf(c.uvw),
            Pdf::Hitable(h) => h.origin.bounded(0x40_0000_0000) && h.ptr.wf(),
            Pdf::Mixture(m) => 0 <= m.d0 && 0 <= m.d1 && m.d0 + m.d1 <= 65536 && m.p0.wf()
                && m.p1.wf(),
        }
    }

    /// The density of drawing `direction`: exactly `value_model`, and
    /// never negative.
    pub fn value(&self, direction: Vec3) -> (r: i64)
        requires
            self.wf(),
            direction.bounded(0x10_0000_0000),
        ensures
            0 <= r <= 0x2_0000_0000_0000,
            r as int == self.value_model(direction),
        decreases *self,
    {
        match self {
            Pdf::Cosine(cp) => {
                if direction.x == 0 && direction.y == 0 && direction.z == 0 {
                    return 0;
                }
                let u = direction.unit();
                let cosine = u.dot(cp.uvw.w);
                proof {
                    crate::vec3::lemma_sdot_bound(u, cp.uvw.w, 131080);
                    crate::fixed::lemma_floor_div_small(
                        (cosine as int) * 65536,
                        205887,
                        0x2_0000_0000_0000,
                    );
                }
                let v = crate::fixed::div_fx(cosine, 205887);
                if v < 0 {
                    0
                } else {
                    v
                }
            },
            Pdf::Hitable(hp) => {
                let v = hp.ptr.pdf_value(&hp.origin, &direction);
                crate::hit::clamp_to(v, 0x1_0000_0000_0000)
            },
            Pdf::Mixture(m) => {
                let v0 = m.p0.value(direction);
                let v1 = m.p1.value(direction);
                proof {
                    lemma_mix_term(m.d0 as int, v0 as int);
                    lemma_mix_term(m.d1 as int, v1 as int);
                }
                crate::fixed::mul_fx(m.d0, v0) + crate::fixed::mul_fx(m.d1, v1)
            },
        }
    }

    /// A direction drawn from the strategy: one of `generated_ok`'s
    /// outcomes, always within the direction bound.
    pub fn generate(&self) -> (r: Vec3)
        requires
            self.wf(),
        ensures
            r.bounded(0x10_0000_0000),
            self.generated_ok(r),
        decreases *self,
    {
        match self {
            Pdf::Cosine(cp) => {
                let c = crate::random::random_cosine_direction();
                let r = cp.uvw.localvec(c);
                proof {
                    assert(cosine_sample_image(cp.uvw, c, r));
                }
                r
            },
            Pdf::Hitable(hp) => {
                let r = hp.ptr.random(&hp.origin);
                proof {
                    match *hp.ptr {
                        Hitable::XzRect(rect) => {
                            assert(*hp.ptr == Hitable::XzRect(rect));
                        },
                        _ => {},
                    }
                }
                r
            },
            Pdf::Mixture(m) => {
                if crate::random::random_double() < m.d0 {
                    m.p0.generate()
                } else {
                    m.p1.generate()
                }
            },
        }
    }
}

/// One term of the mixture: nonnegative and, after scaling back up,
/// within its weight's share of the value bound.
proof fn lemma_mix_term(d: int, v: int)
    requires
        0 <= d <= 65536,
        0 <= v <= 0x2_0000_0000_0000,
    ensures
        0 <= crate::fixed::fmul(d, v),
        65536 * crate::fixed::fmul(d, v) <= d * 0x2_0000_0000_0000,
{
    assert(0 <= d * v <= d * 0x2_0000_0000_0000) by (nonlinear_arith)
        requires
            0 <= d <= 65536,
            0 <= v <= 0x2_0000_0000_0000,
    ;
    vstd::arithmetic::div_mod::lemma_div_is_ordered(0, d * v, 65536);
    assert(0int / 65536 == 0);
    vstd::arithmetic::div_mod::lemma_fundamental_div_mod((d * v), 65536);
    vstd::arithmetic::div_mod::lemma_mod_bound((d * v), 65536);
}

} // verus!
