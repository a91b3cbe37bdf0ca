//! Spatially varying colour: constant fields, checker patterns, Perlin
//! marble, and raster lookups.
//!
//! Textures live in an arena (a plain vector) and refer to each other by
//! index; a texture's children always sit strictly below it, so lookups
//! terminate.

use crate::perlin::perlin_wf;
use crate::perlin::Perlin;
use crate::vec3::Vec3;
use vstd::prelude::*;

verus! {

/// A single colour everywhere.
#[derive(Clone, Copy, PartialEq, Eq, Structural, Debug)]
pub struct ConstantTexture {
    pub color: Vec3,
}

/// Two sub-textures (by arena index) in an alternating sine pattern.
#[derive(Clone, Copy, PartialEq, Eq, Structural, Debug)]
pub struct CheckerTexture {
    pub odd: usize,
    pub even: usize,
}

/// Perlin-marble shading along the `z` axis.
#[derive(Debug)]
pub struct NoiseTexture {
    pub noise: Perlin,
    pub scale: i64,
}

/// A raster of 8-bit RGB triplets sampled by surface coordinates.
#[derive(Clone, PartialEq, Eq, Debug)]
pub struct ImageTexture {
    pub width: usize,
    pub height: usize,
    pub data: Vec<u8>,
}

/// Any texture.
#[derive(Debug)]
pub enum Texture {
    Constant(ConstantTexture),
    Checker(CheckerTexture),
    Noise(NoiseTexture),
    Image(ImageTexture),
}

/// A colour every texture is allowed to produce: nonnegative and at
/// most sixteen (bright lights included).
pub open spec fn color_ok(c: Vec3) -> bool {
    0 <= c.x <= 1048576 && 0 <= c.y <= 1048576 && 0 <= c.z <= 1048576
}

/// One texture's own invariant; `idx` is its position in the arena, so
/// a checker's children must sit strictly below it.
pub open spec fn texture_wf(t: Texture, idx: int) -> bool {
    match t {
        Texture::Constant(c) => color_ok(c.color),
        Texture::Checker(c) => (c.odd as int) < idx && (c.even as int) < idx,
        Texture::Noise(n) => perlin_wf(n.noise) && 0 <= n.scale <= 0x100_0000,
        Texture::Image(im) => {
            &&& 1 <= im.width <= 0x4000
            &&& 1 <= im.height <= 0x4000
            &&& im.data@.len() == 3 * im.width * im.height
        },
    }
}

/// The whole arena is well formed.
pub open spec fn arena_wf(ts: Seq<Texture>) -> bool {
    forall|i: int| 0 <= i < ts.len() ==> texture_wf(#[trigger] ts[i], i)
}

/// The colour texture `idx` produces at surface coordinates `(u, v)`
/// and point `p`, as a function of the arena and the inputs alone.
/// Out-of-range indices (which a well-formed arena never holds) give
/// black, and the checker only descends to strictly smaller indices.
pub open spec fn texture_value_model(
    ts: Seq<Texture>,
    idx: int,
    u: int,
    v: int,
    p: (int, int, int),
) -> (int, int, int)
    decreases idx,
{
    if idx < 0 || idx >= ts.len() {
        (0int, 0int, 0int)
    } else {
        match ts[idx] {
            Texture::Constant(c) => crate::vec3::sv(c.color),
            Texture::Checker(c) => {
                let sx = crate::trig::ssin(scaled_of(p.0));
                let sy = crate::trig::ssin(scaled_of(p.1));
                let sz = crate::trig::ssin(scaled_of(p.2));
                let sines = crate::fixed::fmul(crate::fixed::fmul(sx, sy), sz);
                let child = if sines < 0 {
                    c.odd as int
                } else {
                    c.even as int
                };
                if child < idx {
                    texture_value_model(ts, child, u, v, p)
                } else {
                    (0int, 0int, 0int)
                }
            },
            Texture::Noise(n) => {
                let pc = Vec3 {
                    x: crate::hit::clampi(p.0, 0x40_0000_0000) as i64,
                    y: crate::hit::clampi(p.1, 0x40_0000_0000) as i64,
                    z: crate::hit::clampi(p.2, 0x40_0000_0000) as i64,
                };
                let t = n.noise.sturb(pc);
                let sz = crate::hit::clampi(
                    crate::fixed::clamp64(crate::fixed::fmul(n.scale as int, p.2)),
                    0x2000_0000_0000,
                );
                let arg = crate::hit::clampi(sz + 10 * t, 0x4000_0000_0000);
                let g = (crate::trig::ssin(arg) + 65536) / 2;
                (g, g, g)
            },
            Texture::Image(im) => {
                let fu0 = crate::hit::clampi(u, 65536);
                let fu = if fu0 < 0 {
                    0int
                } else {
                    fu0
                };
                let fv1 = crate::hit::clampi(v, 65536);
                let fv2 = if fv1 < 0 {
                    0int
                } else {
                    fv1
                };
                let fv = 65536 - fv2;
                let ii0 = (fu * im.width) / 65536;
                let ii = if ii0 >= im.width {
                    im.width as int - 1
                } else {
                    ii0
                };
                let jj0 = (fv * im.height) / 65536;
                let jj = if jj0 >= im.height {
                    im.height as int - 1
                } else {
                    jj0
                };
                let base = 3 * (jj * im.width + ii);
                if 0 <= base && base + 2 < im.data.len() {
                    (
                        (im.data[base] * 65536) / 255,
                        (im.data[base + 1] * 65536) / 255,
                        (im.data[base + 2] * 65536) / 255,
                    )
                } else {
                    (0int, 0int, 0int)
                }
            },
        }
    }
}

/// The colour of texture `idx` at surface coordinates `(u, v)` and
/// point `p`: exactly `texture_value_model`. Checker patterns recurse
/// strictly downward.
pub fn value_at(ts: &Vec<Texture>, idx: usize, u: i64, v: i64, p: Vec3) -> (r: Vec3)
    requires
        arena_wf(ts@),
        idx < ts@.len(),
        p.bounded(0x4100_0000_0000_0000),
    ensures
        crate::vec3::sv(r) == texture_value_model(ts@, idx as int, u as int, v as int, crate::vec3::sv(p)),
        color_ok(r),
    decreases idx,
{
    match &ts[idx] {
        Texture::Constant(c) => {
            proof {
                assert(texture_wf(ts@[idx as int], idx as int));
            }
            c.color
        },
        Texture::Checker(c) => {
            proof {
                assert(texture_wf(ts@[idx as int], idx as int));
            }
            let sx = crate::trig::fx_sin(scaled_coord(p.x));
            let sy = crate::trig::fx_sin(scaled_coord(p.y));
            let sz = crate::trig::fx_sin(scaled_coord(p.z));
            let sxy = signed_unit_mul(sx, sy);
            let sines = signed_unit_mul(sxy, sz);
            if sines < 0 {
                value_at(ts, c.odd, u, v, p)
            } else {
                value_at(ts, c.even, u, v, p)
            }
        },
        Texture::Noise(n) => {
            proof {
                assert(texture_wf(ts@[idx as int], idx as int));
            }
            let pc = Vec3 {
                x: crate::hit::clamp_to(p.x, 0x40_0000_0000),
                y: crate::hit::clamp_to(p.y, 0x40_0000_0000),
                z: crate::hit::clamp_to(p.z, 0x40_0000_0000),
            };
            let t = n.noise.turb(pc);
            let sz = crate::hit::clamp_to(crate::fixed::mul_fx_clamp(n.scale, p.z), 0x2000_0000_0000);
            let arg = crate::hit::clamp_to(sz + 10 * t, 0x4000_0000_0000);
            let s = crate::trig::fx_sin(arg);
            // 0.5 * (1 + sin), which lands in the unit interval.
            let g = (((s + 65536) as u64) / 2) as i64;
            Vec3 { x: g, y: g, z: g }
        },
        Texture::Image(im) => {
            proof {
                assert(texture_wf(ts@[idx as int], idx as int));
            }
            let fu = crate::hit::clamp_to(u, 65536);
            let fu = if fu < 0 {
                0
            } else {
                fu
            };
            let fv0 = crate::hit::clamp_to(v, 65536);
            let fv0 = if fv0 < 0 {
                0
            } else {
                fv0
            };
            let fv = 65536 - fv0;
            proof {
                lemma_raster_index(fu as int, im.width as int);
                lemma_raster_index(fv as int, im.height as int);
            }
            let mut ii = ((fu as u64 * im.width as u64) / 65536) as usize;
            let mut jj = ((fv as u64 * im.height as u64) / 65536) as usize;
            if ii >= im.width {
                ii = im.width - 1;
            }
            if jj >= im.height {
                jj = im.height - 1;
            }
            proof {
                lemma_pixel_offset(ii as int, jj as int, im.width as int, im.height as int);
            }
            let base = 3 * (jj * im.width + ii);
            let pr = im.data[base] as u64;
            let pg = im.data[base + 1] as u64;
            let pb = im.data[base + 2] as u64;
            // Channel over 255, at the fixed scale: c * 65536 / 255.
            proof {
                lemma_channel_scale(pr as int);
                lemma_channel_scale(pg as int);
                lemma_channel_scale(pb as int);
            }
            Vec3 {
                x: ((pr * 65536) / 255) as i64,
                y: ((pg * 65536) / 255) as i64,
                z: ((pb * 65536) / 255) as i64,
            }
        },
    }
}

/// Ten times a coordinate, clamped into the sine's domain.
pub open spec fn scaled_of(x: int) -> int {
    10 * crate::hit::clampi(x, 0x400_0000_0000)
}

fn scaled_coord(x: i64) -> (r: i64)
    ensures
        r as int == scaled_of(x as int),
        -0x4000_0000_0000 <= r <= 0x4000_0000_0000,
{
    let c = crate::hit::clamp_to(x, 0x400_0000_0000);
    10 * c
}

/// The product of two values from the closed unit interval, staying
/// there.
fn signed_unit_mul(a: i64, b: i64) -> (r: i64)
    requires
        -65536 <= a <= 65536,
        -65536 <= b <= 65536,
    ensures
        r as int == crate::fixed::fmul(a as int, b as int),
        -65536 <= r <= 65536,
{
    proof {
        if b >= 0 {
            crate::fixed::lemma_fmul_unit_range(a as int, b as int);
        } else {
            crate::fixed::lemma_fmul_unit_range(-(a as int), -(b as int));
            assert((a as int) * (b as int) == (-(a as int)) * (-(b as int))) by (nonlinear_arith);
        }
    }
    crate::fixed::mul_fx(a, b)
}

/// An 8-bit channel scaled to the fixed unit interval.
proof fn lemma_channel_scale(c: int)
    requires
        0 <= c <= 255,
    ensures
        0 <= (c * 65536) / 255 <= 65536,
{
    assert(0 <= c * 65536 <= 255 * 65536) by (nonlinear_arith)
        requires
            0 <= c <= 255,
    ;
    vstd::arithmetic::div_mod::lemma_div_is_ordered(0, c * 65536, 255);
    vstd::arithmetic::div_mod::lemma_div_is_ordered(c * 65536, 255int * 65536, 255);
    assert(0int / 255 == 0);
    assert((255int * 65536) / 255 == 65536) by {
        vstd::arithmetic::div_mod::lemma_fundamental_div_mod_converse(
            255int * 65536,
            255,
            65536,
            0,
        );
    }
}

/// The raster index `f * n / 65536` stays below `n` for `f` within the
/// unit interval (the clamp above handles `f == 65536`).
proof fn lemma_raster_index(f: int, n: int)
    requires
        0 <= f <= 65536,
        1 <= n <= 0x4000,
    ensures
        0 <= (f * n) / 65536 <= n,
{
    assert(0 <= f * n <= 65536 * n) by (nonlinear_arith)
        requires
            0 <= f <= 65536,
            n >= 0,
    ;
    vstd::arithmetic::div_mod::lemma_div_is_ordered(0, f * n, 65536);
    vstd::arithmetic::div_mod::lemma_div_is_ordered(f * n, 65536 * n, 65536);
    assert(0int / 65536 == 0);
    assert((65536 * n) / 65536 == n) by {
        vstd::arithmetic::div_mod::lemma_fundamental_div_mod_converse(65536 * n, 65536, n, 0);
        assert(65536 * n == n * 65536 + 0) by (nonlinear_arith);
    }
}

/// A clamped pixel coordinate addresses a triplet inside the raster.
proof fn lemma_pixel_offset(ii: int, jj: int, w: int, h: int)
    requires
        0 <= ii < w,
        0 <= jj < h,
        1 <= w <= 0x4000,
        1 <= h <= 0x4000,
    ensures
        0 <= 3 * (jj * w + ii),
        3 * (jj * w + ii) + 2 < 3 * w * h,
        jj * w + ii < 0x1000_0000,
        3 * w * h <= 0x3000_0000,
{
    assert(w * h <= 0x1000_0000) by (nonlinear_arith)
        requires
            1 <= w <= 0x4000,
            1 <= h <= 0x4000,
    ;
    assert(jj * w + ii < w * h) by (nonlinear_arith)
        requires
            0 <= ii < w,
            0 <= jj < h,
            w >= 1,
            h >= 1,
    ;
    assert(jj * w >= 0) by (nonlinear_arith)
        requires
            jj >= 0,
            w >= 1,
    ;
    assert(3 * (jj * w + ii) + 2 < 3 * (w * h)) by (nonlinear_arith)
        requires
            jj * w + ii < w * h,
    ;
    assert(3 * (w * h) == 3 * w * h) by (nonlinear_arith);
}

} // verus!
