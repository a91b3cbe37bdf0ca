//! Three-component fixed-point vectors, used for points, directions and
//! colours.
//!
//! The executable operations round exactly once where possible (dot,
//! cross, norm), and every contract names the integer the operation
//! returns.

use crate::fixed::fdiv;
use crate::fixed::floor_div_i128;
use crate::fixed::fmul;
use crate::fixed::isqrt_u128;
use crate::fixed::lemma_fdiv_unit;
use crate::fixed::lemma_floor_div_bounds;
use crate::fixed::lemma_sqrt_floor_props;
use crate::fixed::mul_fx;
use crate::fixed::sqrt_floor;
use vstd::prelude::*;

verus! {

/// Scene geometry and ray data stay within this coordinate bound; it
/// leaves ample headroom for every intermediate product in the crate.
pub const CMAX: i64 = 0x40_0000_0000;

#[derive(Clone, Copy, PartialEq, Eq, Structural, Debug)]
pub struct Vec3 {
    pub x: i64,
    pub y: i64,
    pub z: i64,
}

/// The components of `v` as unbounded integers.
pub open spec fn sv(v: Vec3) -> (int, int, int) {
    (v.x as int, v.y as int, v.z as int)
}

/// The fixed-point dot product: exact products, one rounding at the end.
pub open spec fn sdot(a: Vec3, b: Vec3) -> int {
    (a.x * b.x + a.y * b.y + a.z * b.z) / 65536
}

/// The squared Euclidean norm of `v` at double scale (no rounding).
pub open spec fn nsq(v: Vec3) -> int {
    v.x * v.x + v.y * v.y + v.z * v.z
}

/// The fixed-point Euclidean norm of `v`.
pub open spec fn norm_of(v: Vec3) -> int {
    sqrt_floor(nsq(v))
}

/// The fixed-point cross product of `a` and `b`, one rounding per
/// component.
pub open spec fn scross(a: Vec3, b: Vec3) -> (int, int, int) {
    (
        (a.y * b.z - a.z * b.y) / 65536,
        (a.z * b.x - a.x * b.z) / 65536,
        (a.x * b.y - a.y * b.x) / 65536,
    )
}

impl Vec3 {
    /// All three components lie in `[-b, b]`.
    pub open spec fn bounded(self, b: int) -> bool {
        -b <= self.x <= b && -b <= self.y <= b && -b <= self.z <= b
    }

    pub fn new(x: i64, y: i64, z: i64) -> (r: Vec3)
        ensures
            r == (Vec3 { x, y, z }),
    {
        Vec3 { x, y, z }
    }

    pub fn zero() -> (r: Vec3)
        ensures
            r == (Vec3 { x: 0i64, y: 0i64, z: 0i64 }),
    {
        Vec3 { x: 0, y: 0, z: 0 }
    }

    /// The vector whose every component is fixed-point one.
    pub fn ones() -> (r: Vec3)
        ensures
            r == (Vec3 { x: 65536i64, y: 65536i64, z: 65536i64 }),
    {
        Vec3 { x: 65536, y: 65536, z: 65536 }
    }

    pub fn add(self, o: Vec3) -> (r: Vec3)
        requires
            i64::MIN <= self.x + o.x <= i64::MAX,
            i64::MIN <= self.y + o.y <= i64::MAX,
            i64::MIN <= self.z + o.z <= i64::MAX,
        ensures
            sv(r) == (self.x + o.x, self.y + o.y, self.z + o.z),
    {
        Vec3 { x: self.x + o.x, y: self.y + o.y, z: self.z + o.z }
    }

    pub fn sub(self, o: Vec3) -> (r: Vec3)
        requires
            i64::MIN <= self.x - o.x <= i64::MAX,
            i64::MIN <= self.y - o.y <= i64::MAX,
            i64::MIN <= self.z - o.z <= i64::MAX,
        ensures
            sv(r) == (self.x - o.x, self.y - o.y, self.z - o.z),
    {
        Vec3 { x: self.x - o.x, y: self.y - o.y, z: self.z - o.z }
    }

    pub fn neg(self) -> (r: Vec3)
        requires
            self.x > i64::MIN,
            self.y > i64::MIN,
            self.z > i64::MIN,
        ensures
            sv(r) == (-self.x as int, -self.y as int, -self.z as int),
    {
        Vec3 { x: -self.x, y: -self.y, z: -self.z }
    }

    /// Scale by a fixed-point factor, one rounding per component.
    pub fn scale(self, k: i64) -> (r: Vec3)
        requires
            i64::MIN <= fmul(self.x as int, k as int) <= i64::MAX,
            i64::MIN <= fmul(self.y as int, k as int) <= i64::MAX,
            i64::MIN <= fmul(self.z as int, k as int) <= i64::MAX,
        ensures
            sv(r) == (
                fmul(self.x as int, k as int),
                fmul(self.y as int, k as int),
                fmul(self.z as int, k as int),
            ),
    {
        Vec3 { x: mul_fx(self.x, k), y: mul_fx(self.y, k), z: mul_fx(self.z, k) }
    }

    /// Componentwise (Hadamard) product, used for colour attenuation.
    pub fn elemul(self, o: Vec3) -> (r: Vec3)
        requires
            i64::MIN <= fmul(self.x as int, o.x as int) <= i64::MAX,
            i64::MIN <= fmul(self.y as int, o.y as int) <= i64::MAX,
            i64::MIN <= fmul(self.z as int, o.z as int) <= i64::MAX,
        ensures
            sv(r) == (
                fmul(self.x as int, o.x as int),
                fmul(self.y as int, o.y as int),
                fmul(self.z as int, o.z as int),
            ),
    {
        Vec3 { x: mul_fx(self.x, o.x), y: mul_fx(self.y, o.y), z: mul_fx(self.z, o.z) }
    }

    pub fn dot(self, o: Vec3) -> (r: i64)
        requires
            self.bounded(0x80_0000_0000),
            o.bounded(0x40_0000_0000),
        ensures
            r as int == sdot(self, o),
    {
        proof {
            lemma_prod_bound(self.x as int, o.x as int, 0x80_0000_0000, 0x40_0000_0000);
            lemma_prod_bound(self.y as int, o.y as int, 0x80_0000_0000, 0x40_0000_0000);
            lemma_prod_bound(self.z as int, o.z as int, 0x80_0000_0000, 0x40_0000_0000);
            lemma_floor_div_bounds(
                self.x * o.x + self.y * o.y + self.z * o.z,
                3int * 0x80_0000_0000 * 0x40_0000_0000,
                65536,
            );
        }
        let s: i128 = (self.x as i128) * (o.x as i128) + (self.y as i128) * (o.y as i128) + (
        self.z as i128) * (o.z as i128);
        let q = floor_div_i128(s, 65536);
        q as i64
    }

    pub fn cross(self, o: Vec3) -> (r: Vec3)
        requires
            self.bounded(0x40_0000_0000),
            o.bounded(0x40_0000_0000),
        ensures
            sv(r) == scross(self, o),
    {
        proof {
            lemma_prod_bound(self.y as int, o.z as int, 0x40_0000_0000, 0x40_0000_0000);
            lemma_prod_bound(self.z as int, o.y as int, 0x40_0000_0000, 0x40_0000_0000);
            lemma_prod_bound(self.z as int, o.x as int, 0x40_0000_0000, 0x40_0000_0000);
            lemma_prod_bound(self.x as int, o.z as int, 0x40_0000_0000, 0x40_0000_0000);
            lemma_prod_bound(self.x as int, o.y as int, 0x40_0000_0000, 0x40_0000_0000);
            lemma_prod_bound(self.y as int, o.x as int, 0x40_0000_0000, 0x40_0000_0000);
            lemma_floor_div_bounds(
                self.y * o.z - self.z * o.y,
                2int * 0x40_0000_0000 * 0x40_0000_0000,
                65536,
            );
            lemma_floor_div_bounds(
                self.z * o.x - self.x * o.z,
                2int * 0x40_0000_0000 * 0x40_0000_0000,
                65536,
            );
            lemma_floor_div_bounds(
                self.x * o.y - self.y * o.x,
                2int * 0x40_0000_0000 * 0x40_0000_0000,
                65536,
            );
        }
        let cx = floor_div_i128(
            (self.y as i128) * (o.z as i128) - (self.z as i128) * (o.y as i128),
            65536,
        );
        let cy = floor_div_i128(
            (self.z as i128) * (o.x as i128) - (self.x as i128) * (o.z as i128),
            65536,
        );
        let cz = floor_div_i128(
            (self.x as i128) * (o.y as i128) - (self.y as i128) * (o.x as i128),
            65536,
        );
        Vec3 { x: cx as i64, y: cy as i64, z: cz as i64 }
    }

    /// Componentwise minimum.
    pub fn minv(self, o: Vec3) -> (r: Vec3)
        ensures
            r.x == if self.x < o.x {
                self.x
            } else {
                o.x
            },
            r.y == if self.y < o.y {
                self.y
            } else {
                o.y
            },
            r.z == if self.z < o.z {
                self.z
            } else {
                o.z
            },
    {
        Vec3 {
            x: if self.x < o.x {
                self.x
            } else {
                o.x
            },
            y: if self.y < o.y {
                self.y
            } else {
                o.y
            },
            z: if self.z < o.z {
                self.z
            } else {
                o.z
            },
        }
    }

    /// Componentwise maximum.
    pub fn maxv(self, o: Vec3) -> (r: Vec3)
        ensures
            r.x == if self.x > o.x {
                self.x
            } else {
                o.x
            },
            r.y == if self.y > o.y {
                self.y
            } else {
                o.y
            },
            r.z == if self.z > o.z {
                self.z
            } else {
                o.z
            },
    {
        Vec3 {
            x: if self.x > o.x {
                self.x
            } else {
                o.x
            },
            y: if self.y > o.y {
                self.y
            } else {
                o.y
            },
            z: if self.z > o.z {
                self.z
            } else {
                o.z
            },
        }
    }

    /// The fixed-point dot product of `self` with itself.
    pub fn squared_length(self) -> (r: i64)
        requires
            self.bounded(0x40_0000_0000),
        ensures
            r as int == sdot(self, self),
            r >= 0,
    {
        let r = self.dot(self);
        proof {
            assert(self.x * self.x + self.y * self.y + self.z * self.z >= 0) by (nonlinear_arith);
            lemma_floor_div_bounds(0, 0, 65536);
            vstd::arithmetic::div_mod::lemma_div_is_ordered(
                0,
                self.x * self.x + self.y * self.y + self.z * self.z,
                65536,
            );
        }
        r
    }

    /// The fixed-point Euclidean norm, computed from the exact squared
    /// norm with a single square root.
    pub fn length(self) -> (r: i64)
        requires
            self.bounded(0x40_0000_0000),
        ensures
            r as int == norm_of(self),
            0 <= r < 0x80_0000_0000,
            self.x != 0 || self.y != 0 || self.z != 0 ==> r >= 1,
            self.bounded(0x10_0000_0000) ==> r < 0x20_0000_0000,
            nsq(self) >= 65536 ==> r >= 256,
    {
        proof {
            lemma_prod_bound(self.x as int, self.x as int, 0x40_0000_0000, 0x40_0000_0000);
            lemma_prod_bound(self.y as int, self.y as int, 0x40_0000_0000, 0x40_0000_0000);
            lemma_prod_bound(self.z as int, self.z as int, 0x40_0000_0000, 0x40_0000_0000);
            assert(self.x * self.x + self.y * self.y + self.z * self.z >= 0) by (nonlinear_arith);
        }
        let s: i128 = (self.x as i128) * (self.x as i128) + (self.y as i128) * (self.y as i128) + (
        self.z as i128) * (self.z as i128);
        let r = isqrt_u128(s as u128);
        proof {
            let n = nsq(self);
            let q = r as int;
            assert(q < 0x80_0000_0000) by (nonlinear_arith)
                requires
                    q >= 0,
                    q * q <= n,
                    n <= 3 * 0x40_0000_0000 * 0x40_0000_0000,
            ;
            if self.x != 0 || self.y != 0 || self.z != 0 {
                assert(n >= 1) by (nonlinear_arith)
                    requires
                        n == self.x * self.x + self.y * self.y + self.z * self.z,
                        self.x != 0 || self.y != 0 || self.z != 0,
                ;
                assert(q >= 1) by (nonlinear_arith)
                    requires
                        q >= 0,
                        n < (q + 1) * (q + 1),
                        n >= 1,
                ;
            }
            if self.bounded(0x10_0000_0000) {
                lemma_prod_bound(self.x as int, self.x as int, 0x10_0000_0000, 0x10_0000_0000);
                lemma_prod_bound(self.y as int, self.y as int, 0x10_0000_0000, 0x10_0000_0000);
                lemma_prod_bound(self.z as int, self.z as int, 0x10_0000_0000, 0x10_0000_0000);
                assert(q < 0x20_0000_0000) by (nonlinear_arith)
                    requires
                        q >= 0,
                        q * q <= n,
                        n <= 3int * 0x10_0000_0000 * 0x10_0000_0000,
                ;
            }
            if nsq(self) >= 65536 {
                assert(q >= 256) by (nonlinear_arith)
                    requires
                        q >= 0,
                        n < (q + 1) * (q + 1),
                        n >= 65536,
                ;
            }
        }
        r as i64
    }

    /// The unit vector along `self`: each component divided by the norm,
    /// rounded down. All components land in `[-ONE, ONE]`.
    pub fn unit(self) -> (r: Vec3)
        requires
            self.bounded(0x40_0000_0000),
            self.x != 0 || self.y != 0 || self.z != 0,
        ensures
            sv(r) == (
                fdiv(self.x as int, norm_of(self)),
                fdiv(self.y as int, norm_of(self)),
                fdiv(self.z as int, norm_of(self)),
            ),
            r.bounded(65536),
    {
        let n = self.length();
        proof {
            lemma_norm_dominates(self);
            lemma_fdiv_unit(self.x as int, n as int);
            lemma_fdiv_unit(self.y as int, n as int);
            lemma_fdiv_unit(self.z as int, n as int);
        }
        Vec3 {
            x: crate::fixed::div_fx(self.x, n),
            y: crate::fixed::div_fx(self.y, n),
            z: crate::fixed::div_fx(self.z, n),
        }
    }

    /// Mirror reflection about the normal `n`: `self - 2 (self . n) n`.
    pub fn reflect(self, n: Vec3) -> (r: Vec3)
        requires
            self.bounded(0x2_0000),
            n.bounded(0x2_0000),
        ensures
            sv(r) == (
                self.x - fmul(2 * sdot(self, n), n.x as int),
                self.y - fmul(2 * sdot(self, n), n.y as int),
                self.z - fmul(2 * sdot(self, n), n.z as int),
            ),
            r.bounded(0x100_0000),
    {
        let d = self.dot(n);
        proof {
            lemma_sdot_bound(self, n, 0x2_0000);
            lemma_fmul_fits(2 * d as int, n.x as int, 0x40_0000, 0x2_0000);
            lemma_fmul_fits(2 * d as int, n.y as int, 0x40_0000, 0x2_0000);
            lemma_fmul_fits(2 * d as int, n.z as int, 0x40_0000, 0x2_0000);
        }
        let k = 2 * d;
        Vec3 { x: self.x - mul_fx(k, n.x), y: self.y - mul_fx(k, n.y), z: self.z - mul_fx(k, n.z) }
    }
}

/// Bounds on two factors bound their exact product.
pub proof fn lemma_prod_bound(a: int, b: int, ba: int, bb: int)
    requires
        -ba <= a <= ba,
        -bb <= b <= bb,
        ba >= 0,
        bb >= 0,
    ensures
        -(ba * bb) <= a * b <= ba * bb,
{
    assert(-(ba * bb) <= a * b <= ba * bb) by (nonlinear_arith)
        requires
            -ba <= a <= ba,
            -bb <= b <= bb,
            ba >= 0,
            bb >= 0,
    ;
}

/// The dot product of two vectors bounded by `m` lies within
/// `3 m^2 / 65536` of zero.
pub proof fn lemma_sdot_bound(a: Vec3, b: Vec3, m: int)
    requires
        0 <= m,
        a.bounded(m),
        b.bounded(m),
    ensures
        -((3 * m * m) / 65536) - 1 <= sdot(a, b) <= (3 * m * m) / 65536,
{
    lemma_prod_bound(a.x as int, b.x as int, m, m);
    lemma_prod_bound(a.y as int, b.y as int, m, m);
    lemma_prod_bound(a.z as int, b.z as int, m, m);
    assert(3 * m * m == m * m + m * m + m * m) by (nonlinear_arith);
    lemma_floor_div_bounds(a.x * b.x + a.y * b.y + a.z * b.z, 3 * m * m, 65536);
}

/// A product of factors bounded by `ba` and `bb` has a fixed-point
/// product within `ba * bb / 65536` of zero; in particular it fits in
/// `i64` whenever that bound does.
pub proof fn lemma_fmul_fits(a: int, b: int, ba: int, bb: int)
    requires
        -ba <= a <= ba,
        -bb <= b <= bb,
        0 <= ba,
        0 <= bb,
        (ba * bb) / 65536 < i64::MAX,
    ensures
        i64::MIN <= fmul(a, b) <= i64::MAX,
        -((ba * bb) / 65536) - 1 <= fmul(a, b) <= (ba * bb) / 65536,
{
    lemma_prod_bound(a, b, ba, bb);
    lemma_floor_div_bounds(a * b, ba * bb, 65536);
}

/// The norm of a vector dominates the magnitude of each component.
pub proof fn lemma_norm_dominates(v: Vec3)
    ensures
        norm_of(v) >= v.x && norm_of(v) >= -v.x,
        norm_of(v) >= v.y && norm_of(v) >= -v.y,
        norm_of(v) >= v.z && norm_of(v) >= -v.z,
{
    let n = nsq(v);
    let q = norm_of(v);
    assert(v.x * v.x + v.y * v.y + v.z * v.z >= 0) by (nonlinear_arith);
    lemma_sqrt_floor_props(n);
    assert(q >= v.x && q >= -v.x && q >= v.y && q >= -v.y && q >= v.z && q >= -v.z)
        by (nonlinear_arith)
        requires
            q >= 0,
            n < (q + 1) * (q + 1),
            n == v.x * v.x + v.y * v.y + v.z * v.z,
            n >= q * q,
    ;
}

} // verus!
