//! Perlin noise: permutation tables and gradient vectors drawn once,
//! then trilinear interpolation of Hermite-smoothed lattice gradients.

use crate::fixed::fmul;
use crate::vec3::sdot;
use crate::vec3::Vec3;
use vstd::prelude::*;

verus! {

/// The lattice tables: 256 gradient vectors and three permutations of
/// the indices.
#[derive(Debug)]
pub struct Perlin {
    pub ranvec: Vec<Vec3>,
    pub perm_x: Vec<usize>,
    pub perm_y: Vec<usize>,
    pub perm_z: Vec<usize>,
}

/// Tables of the right size with in-range contents.
pub open spec fn perlin_wf(p: Perlin) -> bool {
    &&& p.ranvec@.len() == 256
    &&& p.perm_x@.len() == 256
    &&& p.perm_y@.len() == 256
    &&& p.perm_z@.len() == 256
    &&& (forall|i: int| 0 <= i < 256 ==> (#[trigger] p.ranvec@[i]).bounded(65536))
    &&& (forall|i: int| 0 <= i < 256 ==> (#[trigger] p.perm_x@[i]) < 256)
    &&& (forall|i: int| 0 <= i < 256 ==> (#[trigger] p.perm_y@[i]) < 256)
    &&& (forall|i: int| 0 <= i < 256 ==> (#[trigger] p.perm_z@[i]) < 256)
}

/// Swapping two positions of a sequence leaves its multiset of values
/// unchanged.
proof fn lemma_swap_keeps_multiset(s: Seq<usize>, i: int, j: int)
    requires
        0 <= i < s.len(),
        0 <= j < s.len(),
    ensures
        s.update(i, s[j]).update(j, s[i]).to_multiset() == s.to_multiset(),
{
    broadcast use vstd::seq_lib::to_multiset_update;
    broadcast use vstd::seq_lib::group_to_multiset_ensures;
    broadcast use vstd::multiset::group_multiset_axioms;

    if i == j {
        assert(s.update(i, s[j]).update(j, s[i]) =~= s);
    } else {
        let s1 = s.update(i, s[j]);
        assert(s.contains(s[i]));
        assert(s1.contains(s1[j]));
        assert(s.to_multiset().count(s[i]) > 0);
        assert(s1.to_multiset() == s.to_multiset().insert(s[j]).remove(s[i]));
        assert(s1.update(j, s[i]).to_multiset() == s1.to_multiset().insert(s[i]).remove(s1[j]));
        assert(s1.update(j, s[i]).to_multiset() =~= s.to_multiset());
    }
}

/// The table every permutation starts from: the identity on the
/// lattice indices.
pub open spec fn identity_table() -> Seq<usize> {
    Seq::new(256, |i: int| i as usize)
}

impl Perlin {
    /// Shuffle the table in place: a permutation of the old contents
    /// (the multiset of entries is unchanged).
    pub fn permute(p: &mut Vec<usize>)
        requires
            old(p)@.len() == 256,
            forall|i: int| 0 <= i < 256 ==> (#[trigger] old(p)@[i]) < 256,
        ensures
            final(p)@.len() == 256,
            forall|i: int| 0 <= i < 256 ==> (#[trigger] final(p)@[i]) < 256,
            final(p)@.to_multiset() == old(p)@.to_multiset(),
    {
        let ghost orig = old(p)@;
        let mut i: usize = 0;
        while i < 256
            invariant
                i <= 256,
                p@.len() == 256,
                forall|k: int| 0 <= k < 256 ==> (#[trigger] p@[k]) < 256,
                p@.to_multiset() == orig.to_multiset(),
            decreases 256 - i,
        {
            let j = crate::random::random_index(i, 256);
            let ghost prev = p@;
            let a = p[i];
            let b = p[j];
            p.set(i, b);
            p.set(j, a);
            proof {
                lemma_swap_keeps_multiset(prev, i as int, j as int);
            }
            i = i + 1;
        }
    }

    /// The identity table, shuffled: a permutation of the indices
    /// `0..256`, so every lattice index appears exactly once.
    pub fn perlin_generate_perm() -> (r: Vec<usize>)
        ensures
            r@.len() == 256,
            forall|i: int| 0 <= i < 256 ==> (#[trigger] r@[i]) < 256,
            r@.to_multiset() == identity_table().to_multiset(),
    {
        let mut p: Vec<usize> = Vec::new();
        let mut i: usize = 0;
        while i < 256
            invariant
                i <= 256,
                p@.len() == i,
                forall|k: int| 0 <= k < p@.len() ==> (#[trigger] p@[k]) < 256,
                p@ =~= identity_table().subrange(0, i as int),
            decreases 256 - i,
        {
            p.push(i);
            i = i + 1;
        }
        proof {
            assert(p@ =~= identity_table());
        }
        Self::permute(&mut p);
        p
    }

    /// Fresh tables: 256 random unit gradients (a degenerate draw falls
    /// back to a fixed axis) and three shuffled index tables, each a
    /// permutation of the lattice indices.
    pub fn new() -> (r: Perlin)
        ensures
            perlin_wf(r),
            r.perm_x@.to_multiset() == identity_table().to_multiset(),
            r.perm_y@.to_multiset() == identity_table().to_multiset(),
            r.perm_z@.to_multiset() == identity_table().to_multiset(),
    {
        let mut ranvec: Vec<Vec3> = Vec::new();
        let mut i: usize = 0;
        while i < 256
            invariant
                i <= 256,
                ranvec@.len() == i,
                forall|k: int| 0 <= k < ranvec@.len() ==> (#[trigger] ranvec@[k]).bounded(65536),
            decreases 256 - i,
        {
            let v = Vec3 {
                x: crate::random::random_double_range(-65536, 65536),
                y: crate::random::random_double_range(-65536, 65536),
                z: crate::random::random_double_range(-65536, 65536),
            };
            let g = if v.x == 0 && v.y == 0 && v.z == 0 {
                Vec3 { x: 65536, y: 0, z: 0 }
            } else {
                v.unit()
            };
            ranvec.push(g);
            i = i + 1;
        }
        Perlin {
            ranvec,
            perm_x: Self::perlin_generate_perm(),
            perm_y: Self::perlin_generate_perm(),
            perm_z: Self::perlin_generate_perm(),
        }
    }

    /// The gradient vector the permutation tables select for a lattice
    /// corner.
    pub open spec fn gradient_model(self, ix: int, iy: int, iz: int) -> Vec3 {
        self.ranvec@[((self.perm_x@[ix] as u8) ^ (self.perm_y@[iy] as u8) ^ (self.perm_z@[iz]
            as u8)) as int]
    }

    /// The noise value: the cell and fractional offsets of `p`, the
    /// Hermite-smoothed weights, and the eight corner contributions
    /// summed.
    pub open spec fn noise_model(self, p: Vec3) -> int {
        let i0 = crate::fixed::floor_div(p.x as int, 65536);
        let j0 = crate::fixed::floor_div(p.y as int, 65536);
        let k0 = crate::fixed::floor_div(p.z as int, 65536);
        let fu = p.x - 65536 * i0;
        let fv = p.y - 65536 * j0;
        let fw = p.z - 65536 * k0;
        let su = shermite(fu);
        let sv_ = shermite(fv);
        let sw = shermite(fw);
        let ix0 = sindex(i0, 0);
        let ix1 = sindex(i0, 1);
        let iy0 = sindex(j0, 0);
        let iy1 = sindex(j0, 1);
        let iz0 = sindex(k0, 0);
        let iz1 = sindex(k0, 1);
        crate::hit::clampi(
            scorner(self.gradient_model(ix0, iy0, iz0), fu, fv, fw, su, sv_, sw, 0, 0, 0)
                + scorner(self.gradient_model(ix0, iy0, iz1), fu, fv, fw, su, sv_, sw, 0, 0, 1)
                + scorner(self.gradient_model(ix0, iy1, iz0), fu, fv, fw, su, sv_, sw, 0, 1, 0)
                + scorner(self.gradient_model(ix0, iy1, iz1), fu, fv, fw, su, sv_, sw, 0, 1, 1)
                + scorner(self.gradient_model(ix1, iy0, iz0), fu, fv, fw, su, sv_, sw, 1, 0, 0)
                + scorner(self.gradient_model(ix1, iy0, iz1), fu, fv, fw, su, sv_, sw, 1, 0, 1)
                + scorner(self.gradient_model(ix1, iy1, iz0), fu, fv, fw, su, sv_, sw, 1, 1, 0)
                + scorner(self.gradient_model(ix1, iy1, iz1), fu, fv, fw, su, sv_, sw, 1, 1, 1),
            196608,
        )
    }

    /// The smoothed lattice noise at `p`: trilinear interpolation of the
    /// eight surrounding gradients with Hermite-smoothed weights,
    /// exactly `noise_model`. The blend of unit gradients never exceeds
    /// three units; the final clamp is what pins that bound.
    pub fn noise(&self, p: Vec3) -> (r: i64)
        requires
            perlin_wf(*self),
            p.bounded(0x2000_0000_0000),
        ensures
            r as int == self.noise_model(p),
            -196608 <= r <= 196608,
    {
        let (i0, fu) = floor_frac(p.x);
        let (j0, fv) = floor_frac(p.y);
        let (k0, fw) = floor_frac(p.z);
        let su = hermite(fu);
        let sv_ = hermite(fv);
        let sw = hermite(fw);
        let ix0 = lattice_index(i0, 0);
        let ix1 = lattice_index(i0, 1);
        let iy0 = lattice_index(j0, 0);
        let iy1 = lattice_index(j0, 1);
        let iz0 = lattice_index(k0, 0);
        let iz1 = lattice_index(k0, 1);
        let t000 = corner_term(self.gradient(ix0, iy0, iz0), fu, fv, fw, su, sv_, sw, 0, 0, 0);
        let t001 = corner_term(self.gradient(ix0, iy0, iz1), fu, fv, fw, su, sv_, sw, 0, 0, 1);
        let t010 = corner_term(self.gradient(ix0, iy1, iz0), fu, fv, fw, su, sv_, sw, 0, 1, 0);
        let t011 = corner_term(self.gradient(ix0, iy1, iz1), fu, fv, fw, su, sv_, sw, 0, 1, 1);
        let t100 = corner_term(self.gradient(ix1, iy0, iz0), fu, fv, fw, su, sv_, sw, 1, 0, 0);
        let t101 = corner_term(self.gradient(ix1, iy0, iz1), fu, fv, fw, su, sv_, sw, 1, 0, 1);
        let t110 = corner_term(self.gradient(ix1, iy1, iz0), fu, fv, fw, su, sv_, sw, 1, 1, 0);
        let t111 = corner_term(self.gradient(ix1, iy1, iz1), fu, fv, fw, su, sv_, sw, 1, 1, 1);
        crate::hit::clamp_to(t000 + t001 + t010 + t011 + t100 + t101 + t110 + t111, 196608)
    }

    /// The gradient vector the tables select for one lattice corner.
    fn gradient(&self, ix: usize, iy: usize, iz: usize) -> (g: Vec3)
        requires
            perlin_wf(*self),
            ix < 256,
            iy < 256,
            iz < 256,
        ensures
            g == self.gradient_model(ix as int, iy as int, iz as int),
            g.bounded(65536),
    {
        self.ranvec[(self.perm_x[ix] as u8 ^ self.perm_y[iy] as u8 ^ self.perm_z[iz] as u8)
            as usize]
    }

    /// One step of the octave fold: this octave's weighted noise plus
    /// the remaining octaves at doubled frequency and halved weight.
    /// Coordinates that would leave the noise function's domain stop
    /// doubling.
    pub open spec fn turb_model(self, p: Vec3, octaves: int, weight: int) -> int
        decreases octaves,
    {
        if octaves <= 0 {
            0
        } else {
            let term = fmul(weight, self.noise_model(p));
            let p2 = Vec3 {
                x: if -0x1000_0000_0000 <= p.x && p.x <= 0x1000_0000_0000 {
                    (p.x * 2) as i64
                } else {
                    p.x
                },
                y: if -0x1000_0000_0000 <= p.y && p.y <= 0x1000_0000_0000 {
                    (p.y * 2) as i64
                } else {
                    p.y
                },
                z: if -0x1000_0000_0000 <= p.z && p.z <= 0x1000_0000_0000 {
                    (p.z * 2) as i64
                } else {
                    p.z
                },
            };
            term + self.turb_model(p2, octaves - 1, fmul(weight, 32768))
        }
    }

    /// The turbulence: the magnitude of seven folded octaves.
    pub open spec fn sturb(self, p: Vec3) -> int {
        let a = self.turb_model(p, 7, 65536);
        if a < 0 {
            -a
        } else {
            a
        }
    }

    /// Seven octaves of noise at doubling frequencies and halving
    /// weights, folded to a magnitude: exactly `sturb`, and never more
    /// than six units (three units of noise times weights summing to
    /// under two).
    pub fn turb(&self, p: Vec3) -> (r: i64)
        requires
            perlin_wf(*self),
            p.bounded(0x40_0000_0000),
        ensures
            r as int == self.sturb(p),
            0 <= r <= 393216,
    {
        let mut accum: i64 = 0;
        let mut weight: i64 = 65536;
        let mut temp = p;
        let mut o: usize = 0;
        while o < 7
            invariant
                o <= 7,
                perlin_wf(*self),
                0 <= weight <= 65536,
                temp.bounded(0x2000_0000_0000),
                accum + 6 * weight <= 393216,
                -accum + 6 * weight <= 393216,
                self.turb_model(p, 7, 65536) == accum + self.turb_model(
                    temp,
                    7 - o as int,
                    weight as int,
                ),
            decreases 7 - o,
        {
            let n = self.noise(temp);
            proof {
                lemma_octave_term(weight as int, n as int);
            }
            let term = crate::fixed::mul_fx(weight, n);
            accum = accum + term;
            proof {
                crate::vec3::lemma_fmul_fits(weight as int, 32768, 65536, 32768);
                vstd::arithmetic::div_mod::lemma_div_is_ordered(0, (weight as int) * 32768, 65536);
                assert((weight as int) * 32768 >= 0) by (nonlinear_arith)
                    requires
                        weight >= 0,
                ;
                assert(0int / 65536 == 0);
                lemma_halved_weight(weight as int);
            }
            weight = crate::fixed::mul_fx(weight, 32768);
            let t2 = Vec3 {
                x: if -0x1000_0000_0000 <= temp.x && temp.x <= 0x1000_0000_0000 {
                    temp.x * 2
                } else {
                    temp.x
                },
                y: if -0x1000_0000_0000 <= temp.y && temp.y <= 0x1000_0000_0000 {
                    temp.y * 2
                } else {
                    temp.y
                },
                z: if -0x1000_0000_0000 <= temp.z && temp.z <= 0x1000_0000_0000 {
                    temp.z * 2
                } else {
                    temp.z
                },
            };
            temp = t2;
            o = o + 1;
        }
        if accum < 0 {
            -accum
        } else {
            accum
        }
    }
}

/// The lattice cell and fractional offset of one coordinate: the floor
/// at unit scale, and what remains.
fn floor_frac(x: i64) -> (r: (i64, i64))
    requires
        -0x2000_0000_0000 <= x <= 0x2000_0000_0000,
    ensures
        r.0 as int == crate::fixed::floor_div(x as int, 65536),
        r.1 as int == x - 65536 * crate::fixed::floor_div(x as int, 65536),
        -0x2_0000_0000_0000 <= r.0 <= 0x2_0000_0000_0000,
        0 <= r.1 <= 65535,
{
    let q128 = crate::fixed::floor_div_i128(x as i128, 65536);
    proof {
        vstd::arithmetic::div_mod::lemma_fundamental_div_mod(x as int, 65536);
        vstd::arithmetic::div_mod::lemma_mod_bound(x as int, 65536);
        assert(-0x2_0000_0000_0000 <= q128 as int <= 0x2_0000_0000_0000) by (nonlinear_arith)
            requires
                65536 * (q128 as int) == x as int - (x as int) % 65536,
                -0x2000_0000_0000 <= x as int <= 0x2000_0000_0000,
                0 <= (x as int) % 65536 < 65536,
        ;
    }
    let q = q128 as i64;
    let f = x - q * 65536;
    (q, f)
}

/// The Hermite smoothing `f^2 (3 - 2 f)` of a fraction.
fn hermite(f: i64) -> (r: i64)
    requires
        0 <= f <= 65535,
    ensures
        r as int == shermite(f as int),
        0 <= r <= 65536,
{
    proof {
        crate::fixed::lemma_fmul_unit_range(f as int, f as int);
        vstd::arithmetic::div_mod::lemma_div_is_ordered(0, (f as int) * (f as int), 65536);
        assert((f as int) * (f as int) >= 0) by (nonlinear_arith);
        assert(0int / 65536 == 0);
    }
    let f2 = crate::fixed::mul_fx(f, f);
    proof {
        assert(0 <= 3 * 65536 - 2 * (f as int) <= 3 * 65536);
        crate::vec3::lemma_fmul_fits(f2 as int, 3 * 65536 - 2 * f as int, 65536, 196608);
        vstd::arithmetic::div_mod::lemma_div_is_ordered(
            0,
            (f2 as int) * (3 * 65536 - 2 * f as int),
            65536,
        );
        assert((f2 as int) * (3 * 65536 - 2 * f as int) >= 0) by (nonlinear_arith)
            requires
                f2 >= 0,
                3 * 65536 - 2 * (f as int) >= 0,
        ;
    }
    let s = crate::fixed::mul_fx(f2, 3 * 65536 - 2 * f);
    if s > 65536 {
        65536
    } else if s < 0 {
        0
    } else {
        s
    }
}

/// The table index of a lattice cell: the cell number shifted into the
/// nonnegative range and reduced modulo the table size.
fn lattice_index(i0: i64, d: usize) -> (r: usize)
    requires
        -0x2_0000_0000_0000 <= i0 <= 0x2_0000_0000_0000,
        d < 2,
    ensures
        r as int == sindex(i0 as int, d as int),
        r < 256,
{
    let shifted: i64 = i0 + (d as i64) + 0x4_0000_0000_0000;
    let m = (shifted as u64) % 256;
    m as usize
}

/// One corner's contribution to the interpolation: the three smoothed
/// weights times the gradient's alignment with the offset vector.
fn corner_term(
    g: Vec3,
    fu: i64,
    fv: i64,
    fw: i64,
    su: i64,
    sv_: i64,
    sw: i64,
    di: usize,
    dj: usize,
    dk: usize,
) -> (r: i64)
    requires
        g.bounded(65536),
        0 <= fu <= 65535,
        0 <= fv <= 65535,
        0 <= fw <= 65535,
        0 <= su <= 65536,
        0 <= sv_ <= 65536,
        0 <= sw <= 65536,
        di < 2,
        dj < 2,
        dk < 2,
    ensures
        r as int == scorner(g, fu as int, fv as int, fw as int, su as int, sv_ as int, sw as int,
            di as int, dj as int, dk as int),
        -0x4_0000 <= r <= 0x4_0000,
{
    let wu = if di == 1 {
        su
    } else {
        65536 - su
    };
    let wv = if dj == 1 {
        sv_
    } else {
        65536 - sv_
    };
    let ww = if dk == 1 {
        sw
    } else {
        65536 - sw
    };
    let weight = Vec3 {
        x: fu - (di as i64) * 65536,
        y: fv - (dj as i64) * 65536,
        z: fw - (dk as i64) * 65536,
    };
    let d = g.dot(weight);
    proof {
        crate::vec3::lemma_sdot_bound(g, weight, 65536);
        crate::fixed::lemma_fmul_unit_range(wu as int, wv as int);
        assert((3int * 65536 * 65536) / 65536 == 3 * 65536);
    }
    let w2 = crate::fixed::mul_fx(wu, wv);
    proof {
        crate::fixed::lemma_fmul_unit_range(w2 as int, ww as int);
    }
    let w3 = crate::fixed::mul_fx(w2, ww);
    proof {
        crate::vec3::lemma_fmul_fits(w3 as int, d as int, 65536, 196609);
    }
    let t = crate::fixed::mul_fx(w3, d);
    if t > 0x4_0000 {
        0x4_0000
    } else if t < -0x4_0000 {
        -0x4_0000
    } else {
        t
    }
}

/// The Hermite smoothing of a fraction, clamped into the unit
/// interval.
pub open spec fn shermite(f: int) -> int {
    let sm = fmul(fmul(f, f), 3 * 65536 - 2 * f);
    if sm > 65536 {
        65536
    } else if sm < 0 {
        0
    } else {
        sm
    }
}

/// The table index of a lattice cell: the cell number shifted into the
/// nonnegative range and reduced modulo the table size.
pub open spec fn sindex(i0: int, d: int) -> int {
    (i0 + d + 0x4_0000_0000_0000) % 256
}

/// One corner's contribution: the three smoothed weights times the
/// gradient's alignment with the offset vector, clamped.
pub open spec fn scorner(
    g: Vec3,
    fu: int,
    fv: int,
    fw: int,
    su: int,
    sv_: int,
    sw: int,
    di: int,
    dj: int,
    dk: int,
) -> int {
    let wu = if di == 1 {
        su
    } else {
        65536 - su
    };
    let wv = if dj == 1 {
        sv_
    } else {
        65536 - sv_
    };
    let ww = if dk == 1 {
        sw
    } else {
        65536 - sw
    };
    let d = sdot(
        g,
        Vec3 {
            x: (fu - di * 65536) as i64,
            y: (fv - dj * 65536) as i64,
            z: (fw - dk * 65536) as i64,
        },
    );
    let t = fmul(fmul(fmul(wu, wv), ww), d);
    if t > 0x4_0000 {
        0x4_0000
    } else if t < -0x4_0000 {
        -0x4_0000
    } else {
        t
    }
}

/// One octave's weighted term stays within three times its weight,
/// exactly: the noise bound is the multiple of the scale that makes
/// both ends of the division land on integers.
proof fn lemma_octave_term(w: int, n: int)
    requires
        0 <= w <= 65536,
        -196608 <= n <= 196608,
    ensures
        -3 * w <= fmul(w, n) <= 3 * w,
{
    assert(-(w * 196608) <= w * n <= w * 196608) by (nonlinear_arith)
        requires
            0 <= w,
            -196608 <= n <= 196608,
    ;
    assert((w * 196608) / 65536 == 3 * w) by {
        assert(w * 196608 == (3 * w) * 65536 + 0) by (nonlinear_arith);
        vstd::arithmetic::div_mod::lemma_fundamental_div_mod_converse(
            w * 196608,
            65536,
            3 * w,
            0,
        );
    }
    assert((-(w * 196608)) / 65536 == -(3 * w)) by {
        assert(-(w * 196608) == (-(3 * w)) * 65536 + 0) by (nonlinear_arith);
        vstd::arithmetic::div_mod::lemma_fundamental_div_mod_converse(
            -(w * 196608),
            65536,
            -(3 * w),
            0,
        );
    }
    vstd::arithmetic::div_mod::lemma_div_is_ordered(-(w * 196608), w * n, 65536);
    vstd::arithmetic::div_mod::lemma_div_is_ordered(w * n, w * 196608, 65536);
}

/// Halving a weight at the fixed scale at least halves the bound term.
proof fn lemma_halved_weight(w: int)
    requires
        0 <= w <= 65536,
    ensures
        64 * fmul(w, 32768) <= 32 * w,
        0 <= fmul(w, 32768),
{
    vstd::arithmetic::div_mod::lemma_fundamental_div_mod(w * 32768, 65536);
    vstd::arithmetic::div_mod::lemma_mod_bound(w * 32768, 65536);
    assert(w * 32768 >= 0) by (nonlinear_arith)
        requires
            w >= 0,
    ;
    vstd::arithmetic::div_mod::lemma_div_is_ordered(0, w * 32768, 65536);
    assert(0int / 65536 == 0);
    assert(64 * ((w * 32768) / 65536) <= 32 * w) by (nonlinear_arith)
        requires
            w * 32768 == 65536 * ((w * 32768) / 65536) + (w * 32768) % 65536,
            (w * 32768) % 65536 >= 0,
    ;
}

} // verus!
