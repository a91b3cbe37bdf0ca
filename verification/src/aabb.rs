//! Axis-aligned bounding boxes and the exact ray/box slab test.
//!
//! The test keeps the running parameter interval as a pair of rationals
//! and compares by cross-multiplication, so it decides *exactly* whether
//! some rational ray parameter in `[t_min, t_max]` stays inside every
//! slab: no division, no rounding, and no special case for rays parallel
//! to a slab.

use crate::ray::Ray;
use crate::vec3::lemma_prod_bound;
use crate::vec3::Vec3;
use vstd::prelude::*;

verus! {

#[derive(Clone, Copy, PartialEq, Eq, Structural, Debug)]
pub struct AABB {
    pub min: Vec3,
    pub max: Vec3,
}

/// Each component of `min` is at most the matching component of `max`.
pub open spec fn aabb_wf(b: AABB) -> bool {
    b.min.x <= b.max.x && b.min.y <= b.max.y && b.min.z <= b.max.z
}

/// The box stays inside the coordinate bound.
pub open spec fn aabb_bounded(b: AABB) -> bool {
    b.min.bounded(0x40_0000_0000) && b.max.bounded(0x40_0000_0000)
}

/// The point `(px, py, pz)` lies inside `b` (boundary included).
pub open spec fn contains_point(b: AABB, px: int, py: int, pz: int) -> bool {
    &&& b.min.x <= px <= b.max.x
    &&& b.min.y <= py <= b.max.y
    &&& b.min.z <= pz <= b.max.z
}

/// Every point of `inner` lies inside `outer`.
pub open spec fn contains_box(outer: AABB, inner: AABB) -> bool {
    &&& outer.min.x <= inner.min.x && inner.max.x <= outer.max.x
    &&& outer.min.y <= inner.min.y && inner.max.y <= outer.max.y
    &&& outer.min.z <= inner.min.z && inner.max.z <= outer.max.z
}

/// One slab constraint at the rational ray parameter `tn / td`
/// (`td > 0`), cross-multiplied by `td`: the point the ray reaches
/// there is `o + (tn / td) d / ONE`, so the constraint
/// `mn <= o + (tn/td) d / ONE <= mx` is scaled through by `ONE * td`.
pub open spec fn axis_ok(o: int, d: int, mn: int, mx: int, tn: int, td: int) -> bool {
    mn * 65536 * td <= o * 65536 * td + tn * d <= mx * 65536 * td
}

/// The rational parameter `tn / td` meets all three slabs of `b`.
pub open spec fn slab_contains_at(b: AABB, r: Ray, tn: int, td: int) -> bool {
    &&& axis_ok(r.origin.x as int, r.direction.x as int, b.min.x as int, b.max.x as int, tn, td)
    &&& axis_ok(r.origin.y as int, r.direction.y as int, b.min.y as int, b.max.y as int, tn, td)
    &&& axis_ok(r.origin.z as int, r.direction.z as int, b.min.z as int, b.max.z as int, tn, td)
}

/// The exact ray/box intersection predicate: some rational parameter in
/// `[tmin, tmax]` lies inside every slab of `b`.
pub open spec fn aabb_hit(b: AABB, r: Ray, tmin: int, tmax: int) -> bool {
    exists|tn: int, td: int|
        td > 0 && #[trigger] slab_contains_at(b, r, tn, td) && tmin * td <= tn <= tmax * td
}

/// The rational `tn / td` lies in the rational interval
/// `[ln / ld, hn / hd]` (all denominators positive), cross-multiplied.
pub open spec fn in_ivl(ln: int, ld: int, hn: int, hd: int, tn: int, td: int) -> bool {
    ln * td <= tn * ld && tn * hd <= hn * td
}

/// Ordering of rationals with positive denominators is transitive.
pub proof fn lemma_rat_le_trans(an: int, ad: int, bn: int, bd: int, cn: int, cd: int)
    requires
        ad > 0,
        bd > 0,
        cd > 0,
        an * bd <= bn * ad,
        bn * cd <= cn * bd,
    ensures
        an * cd <= cn * ad,
{
    assert(an * cd * bd <= cn * ad * bd) by (nonlinear_arith)
        requires
            ad > 0,
            bd > 0,
            cd > 0,
            an * bd <= bn * ad,
            bn * cd <= cn * bd,
    ;
    assert(an * cd <= cn * ad) by (nonlinear_arith)
        requires
            bd > 0,
            an * cd * bd <= cn * ad * bd,
    ;
}

/// `t >= max(a, b)` (as rationals with positive denominators) exactly
/// when `t >= a` and `t >= b`; `(cn, cd)` is whichever of the two the
/// cross-multiplied comparison picked as larger.
proof fn lemma_max_lower(an: int, ad: int, bn: int, bd: int, cn: int, cd: int, tn: int, td: int)
    requires
        ad > 0,
        bd > 0,
        td > 0,
        (bn * ad > an * bd && cn == bn && cd == bd) || (bn * ad <= an * bd && cn == an && cd == ad),
    ensures
        cn * td <= tn * cd <==> (an * td <= tn * ad && bn * td <= tn * bd),
{
    if bn * ad > an * bd {
        if cn * td <= tn * cd {
            lemma_rat_le_trans(an, ad, bn, bd, tn, td);
        }
    } else {
        if cn * td <= tn * cd {
            lemma_rat_le_trans(bn, bd, an, ad, tn, td);
        }
    }
}

/// `t <= min(a, b)` exactly when `t <= a` and `t <= b`; `(cn, cd)` is
/// whichever the comparison picked as smaller.
proof fn lemma_min_upper(an: int, ad: int, bn: int, bd: int, cn: int, cd: int, tn: int, td: int)
    requires
        ad > 0,
        bd > 0,
        td > 0,
        (bn * ad < an * bd && cn == bn && cd == bd) || (bn * ad >= an * bd && cn == an && cd == ad),
    ensures
        tn * cd <= cn * td <==> (tn * ad <= an * td && tn * bd <= bn * td),
{
    if bn * ad < an * bd {
        if tn * cd <= cn * td {
            lemma_rat_le_trans(tn, td, bn, bd, an, ad);
        }
    } else {
        if tn * cd <= cn * td {
            lemma_rat_le_trans(tn, td, an, ad, bn, bd);
        }
    }
}

/// The running rational interval after clipping by one slab, or `None`
/// when the slab alone rejects every parameter.
fn clip_axis(o: i64, d: i64, mn: i64, mx: i64, ln: i128, ld: i128, hn: i128, hd: i128) -> (res:
    Option<(i128, i128, i128, i128)>)
    requires
        -0x40_0000_0000 <= o <= 0x40_0000_0000,
        -0x40_0000_0000 <= d <= 0x40_0000_0000,
        -0x40_0000_0000 <= mn <= 0x40_0000_0000,
        -0x40_0000_0000 <= mx <= 0x40_0000_0000,
        -0x8000_0000_0000_0000 <= ln <= 0x8000_0000_0000_0000,
        -0x8000_0000_0000_0000 <= hn <= 0x8000_0000_0000_0000,
        0 < ld <= 0x40_0000_0000,
        0 < hd <= 0x40_0000_0000,
    ensures
        match res {
            Some(iv) => {
                &&& -0x8000_0000_0000_0000 <= iv.0 <= 0x8000_0000_0000_0000
                &&& 0 < iv.1 <= 0x40_0000_0000
                &&& -0x8000_0000_0000_0000 <= iv.2 <= 0x8000_0000_0000_0000
                &&& 0 < iv.3 <= 0x40_0000_0000
                &&& forall|tn: int, td: int|
                    td > 0 ==> (#[trigger] in_ivl(
                        iv.0 as int,
                        iv.1 as int,
                        iv.2 as int,
                        iv.3 as int,
                        tn,
                        td,
                    ) <==> (in_ivl(ln as int, ld as int, hn as int, hd as int, tn, td) && axis_ok(
                        o as int,
                        d as int,
                        mn as int,
                        mx as int,
                        tn,
                        td,
                    )))
            },
            None => forall|tn: int, td: int|
                td > 0 ==> !(#[trigger] in_ivl(ln as int, ld as int, hn as int, hd as int, tn, td)
                    && axis_ok(o as int, d as int, mn as int, mx as int, tn, td)),
        },
{
    if d == 0 {
        if o < mn || o > mx {
            proof {
                assert forall|tn: int, td: int| td > 0 implies !(#[trigger] in_ivl(
                    ln as int,
                    ld as int,
                    hn as int,
                    hd as int,
                    tn,
                    td,
                ) && axis_ok(o as int, d as int, mn as int, mx as int, tn, td)) by {
                    if o < mn {
                        assert((mn as int) * 65536 * td > (o as int) * 65536 * td)
                            by (nonlinear_arith)
                            requires
                                td > 0,
                                (o as int) < (mn as int),
                        ;
                    } else {
                        assert((mx as int) * 65536 * td < (o as int) * 65536 * td)
                            by (nonlinear_arith)
                            requires
                                td > 0,
                                (o as int) > (mx as int),
                        ;
                    }
                }
            }
            None
        } else {
            proof {
                assert forall|tn: int, td: int| td > 0 implies (#[trigger] in_ivl(
                    ln as int,
                    ld as int,
                    hn as int,
                    hd as int,
                    tn,
                    td,
                ) <==> (in_ivl(ln as int, ld as int, hn as int, hd as int, tn, td) && axis_ok(
                    o as int,
                    d as int,
                    mn as int,
                    mx as int,
                    tn,
                    td,
                ))) by {
                    assert((mn as int) * 65536 * td <= (o as int) * 65536 * td && (o as int)
                        * 65536 * td <= (mx as int) * 65536 * td) by (nonlinear_arith)
                        requires
                            td > 0,
                            (mn as int) <= (o as int) <= (mx as int),
                    ;
                }
            }
            Some((ln, ld, hn, hd))
        }
    } else {
        // The slab alone admits exactly the rational interval
        // [(mn - o)/d, (mx - o)/d]; when d is negative the endpoints
        // swap and both signs flip so the denominator stays positive.
        let (sn0, sn1, sd): (i128, i128, i128) = if d > 0 {
            (
                ((mn as i128) - (o as i128)) * 65536,
                ((mx as i128) - (o as i128)) * 65536,
                d as i128,
            )
        } else {
            (
                ((o as i128) - (mx as i128)) * 65536,
                ((o as i128) - (mn as i128)) * 65536,
                (-d) as i128,
            )
        };
        proof {
            lemma_prod_bound(sn0 as int, ld as int, 0x80_0000_0000_0000, 0x40_0000_0000);
            lemma_prod_bound(ln as int, sd as int, 0x8000_0000_0000_0000, 0x40_0000_0000);
            lemma_prod_bound(sn1 as int, hd as int, 0x80_0000_0000_0000, 0x40_0000_0000);
            lemma_prod_bound(hn as int, sd as int, 0x8000_0000_0000_0000, 0x40_0000_0000);
        }
        let pick_lo_slab = sn0 * ld > ln * sd;
        let pick_hi_slab = sn1 * hd < hn * sd;
        let ln2: i128 = if pick_lo_slab {
            sn0
        } else {
            ln
        };
        let ld2: i128 = if pick_lo_slab {
            sd
        } else {
            ld
        };
        let hn2: i128 = if pick_hi_slab {
            sn1
        } else {
            hn
        };
        let hd2: i128 = if pick_hi_slab {
            sd
        } else {
            hd
        };
        proof {
            assert forall|tn: int, td: int| td > 0 implies (#[trigger] in_ivl(
                ln2 as int,
                ld2 as int,
                hn2 as int,
                hd2 as int,
                tn,
                td,
            ) <==> (in_ivl(ln as int, ld as int, hn as int, hd as int, tn, td) && axis_ok(
                o as int,
                d as int,
                mn as int,
                mx as int,
                tn,
                td,
            ))) by {
                assert(((mn as int) * 65536 * td <= (o as int) * 65536 * td + tn * (d as int) && (
                o as int) * 65536 * td + tn * (d as int) <= (mx as int) * 65536 * td) <==> ((
                sn0 as int) * td <= tn * (sd as int) && tn * (sd as int) <= (sn1 as int) * td))
                    by (nonlinear_arith)
                    requires
                        td > 0,
                        d != 0,
                        (d as int) > 0 ==> (sn0 as int) == ((mn as int) - (o as int)) * 65536 && (
                        sd as int) == (d as int),
                        (d as int) < 0 ==> (sn0 as int) == ((o as int) - (mx as int)) * 65536 && (
                        sd as int) == -(d as int),
                        (d as int) > 0 ==> (sn1 as int) == ((mx as int) - (o as int)) * 65536,
                        (d as int) < 0 ==> (sn1 as int) == ((o as int) - (mn as int)) * 65536,
                ;
                lemma_max_lower(
                    ln as int,
                    ld as int,
                    sn0 as int,
                    sd as int,
                    ln2 as int,
                    ld2 as int,
                    tn,
                    td,
                );
                lemma_min_upper(
                    hn as int,
                    hd as int,
                    sn1 as int,
                    sd as int,
                    hn2 as int,
                    hd2 as int,
                    tn,
                    td,
                );
            }
        }
        Some((ln2, ld2, hn2, hd2))
    }
}

impl AABB {
    /// Whether the ray meets the box somewhere in `[t_min, t_max]`:
    /// exactly the predicate `aabb_hit`.
    pub fn hit(&self, ra: &Ray, t_min: i64, t_max: i64) -> (r: bool)
        requires
            crate::ray::ray_wf(*ra),
            aabb_bounded(*self),
        ensures
            r == aabb_hit(*self, *ra, t_min as int, t_max as int),
    {
        let ln0: i128 = t_min as i128;
        let hn0: i128 = t_max as i128;
        let res_x = clip_axis(ra.origin.x, ra.direction.x, self.min.x, self.max.x, ln0, 1, hn0, 1);
        let iv1 = match res_x {
            None => {
                proof {
                    assert forall|tn: int, td: int|
                        !(td > 0 && #[trigger] slab_contains_at(*self, *ra, tn, td) && (
                        t_min as int) * td <= tn <= (t_max as int) * td) by {
                        if td > 0 && slab_contains_at(*self, *ra, tn, td) && (t_min as int) * td
                            <= tn <= (t_max as int) * td {
                            assert(in_ivl(t_min as int, 1, t_max as int, 1, tn, td));
                        }
                    }
                }
                return false;
            },
            Some(iv) => iv,
        };
        let res_y = clip_axis(
            ra.origin.y,
            ra.direction.y,
            self.min.y,
            self.max.y,
            iv1.0,
            iv1.1,
            iv1.2,
            iv1.3,
        );
        let iv2 = match res_y {
            None => {
                proof {
                    assert forall|tn: int, td: int|
                        !(td > 0 && #[trigger] slab_contains_at(*self, *ra, tn, td) && (
                        t_min as int) * td <= tn <= (t_max as int) * td) by {
                        if td > 0 && slab_contains_at(*self, *ra, tn, td) && (t_min as int) * td
                            <= tn <= (t_max as int) * td {
                            assert(in_ivl(t_min as int, 1, t_max as int, 1, tn, td));
                            assert(in_ivl(iv1.0 as int, iv1.1 as int, iv1.2 as int, iv1.3 as int, tn, td));
                        }
                    }
                }
                return false;
            },
            Some(iv) => iv,
        };
        let res_z = clip_axis(
            ra.origin.z,
            ra.direction.z,
            self.min.z,
            self.max.z,
            iv2.0,
            iv2.1,
            iv2.2,
            iv2.3,
        );
        let iv3 = match res_z {
            None => {
                proof {
                    assert forall|tn: int, td: int|
                        !(td > 0 && #[trigger] slab_contains_at(*self, *ra, tn, td) && (
                        t_min as int) * td <= tn <= (t_max as int) * td) by {
                        if td > 0 && slab_contains_at(*self, *ra, tn, td) && (t_min as int) * td
                            <= tn <= (t_max as int) * td {
                            assert(in_ivl(t_min as int, 1, t_max as int, 1, tn, td));
                            assert(in_ivl(iv1.0 as int, iv1.1 as int, iv1.2 as int, iv1.3 as int, tn, td));
                            assert(in_ivl(iv2.0 as int, iv2.1 as int, iv2.2 as int, iv2.3 as int, tn, td));
                        }
                    }
                }
                return false;
            },
            Some(iv) => iv,
        };
        proof {
            lemma_prod_bound(iv3.0 as int, iv3.3 as int, 0x8000_0000_0000_0000, 0x40_0000_0000);
            lemma_prod_bound(iv3.2 as int, iv3.1 as int, 0x8000_0000_0000_0000, 0x40_0000_0000);
        }
        let nonempty = iv3.0 * iv3.3 <= iv3.2 * iv3.1;
        proof {
            if nonempty {
                assert(in_ivl(iv3.0 as int, iv3.1 as int, iv3.2 as int, iv3.3 as int, iv3.0 as int, iv3.1 as int));
                assert(in_ivl(iv2.0 as int, iv2.1 as int, iv2.2 as int, iv2.3 as int, iv3.0 as int, iv3.1 as int));
                assert(in_ivl(iv1.0 as int, iv1.1 as int, iv1.2 as int, iv1.3 as int, iv3.0 as int, iv3.1 as int));
                assert(in_ivl(t_min as int, 1, t_max as int, 1, iv3.0 as int, iv3.1 as int));
                assert(slab_contains_at(*self, *ra, iv3.0 as int, iv3.1 as int) && (t_min as int)
                    * (iv3.1 as int) <= iv3.0 as int <= (t_max as int) * (iv3.1 as int));
            } else {
                assert forall|tn: int, td: int|
                    !(td > 0 && #[trigger] slab_contains_at(*self, *ra, tn, td) && (t_min as int)
                        * td <= tn <= (t_max as int) * td) by {
                    if td > 0 && slab_contains_at(*self, *ra, tn, td) && (t_min as int) * td <= tn
                        <= (t_max as int) * td {
                        assert(in_ivl(t_min as int, 1, t_max as int, 1, tn, td));
                        assert(in_ivl(iv1.0 as int, iv1.1 as int, iv1.2 as int, iv1.3 as int, tn, td));
                        assert(in_ivl(iv2.0 as int, iv2.1 as int, iv2.2 as int, iv2.3 as int, tn, td));
                        assert(in_ivl(iv3.0 as int, iv3.1 as int, iv3.2 as int, iv3.3 as int, tn, td));
                        lemma_rat_le_trans(
                            iv3.0 as int,
                            iv3.1 as int,
                            tn,
                            td,
                            iv3.2 as int,
                            iv3.3 as int,
                        );
                    }
                }
            }
        }
        nonempty
    }

    /// The smallest box containing both arguments: componentwise minimum
    /// of the minima and maximum of the maxima.
    pub fn surrounding_box(box0: AABB, box1: AABB) -> (r: AABB)
        ensures
            r == surrounding_of(box0, box1),
    {
        let min = box0.min.minv(box1.min);
        let max = box0.max.maxv(box1.max);
        AABB { min, max }
    }
}

/// The componentwise union box of `a` and `b`.
pub open spec fn surrounding_of(a: AABB, b: AABB) -> AABB {
    AABB {
        min: Vec3 {
            x: if a.min.x < b.min.x {
                a.min.x
            } else {
                b.min.x
            },
            y: if a.min.y < b.min.y {
                a.min.y
            } else {
                b.min.y
            },
            z: if a.min.z < b.min.z {
                a.min.z
            } else {
                b.min.z
            },
        },
        max: Vec3 {
            x: if a.max.x > b.max.x {
                a.max.x
            } else {
                b.max.x
            },
            y: if a.max.y > b.max.y {
                a.max.y
            } else {
                b.max.y
            },
            z: if a.max.z > b.max.z {
                a.max.z
            } else {
                b.max.z
            },
        },
    }
}

/// `(px, py, pz)` is one of the eight corner points of `b`.
pub open spec fn corner_of(b: AABB, px: int, py: int, pz: int) -> bool {
    &&& (px == b.min.x || px == b.max.x)
    &&& (py == b.min.y || py == b.max.y)
    &&& (pz == b.min.z || pz == b.max.z)
}

/// Law: the surrounding box contains both of its arguments whole, and
/// every corner point of either argument lies between the returned
/// box's minimum and maximum on every axis.
pub proof fn lemma_surrounding_box_contains(a: AABB, b: AABB)
    requires
        aabb_wf(a),
        aabb_wf(b),
    ensures
        contains_box(surrounding_of(a, b), a),
        contains_box(surrounding_of(a, b), b),
        forall|px: int, py: int, pz: int|
            corner_of(a, px, py, pz) || corner_of(b, px, py, pz)
                ==> #[trigger] contains_point(surrounding_of(a, b), px, py, pz),
{
}

/// The surrounding box contains both of its arguments whole, with no
/// side condition: the componentwise minimum is below either minimum
/// and the maximum above either maximum.
pub proof fn lemma_surrounding_contains_boxes(a: AABB, b: AABB)
    ensures
        contains_box(surrounding_of(a, b), a),
        contains_box(surrounding_of(a, b), b),
{
}

/// A hit inside a narrower parameter interval is a hit inside any
/// wider one.
pub proof fn lemma_aabb_hit_interval_widen(b: AABB, r: Ray, tmin: int, t1: int, tmax: int)
    requires
        aabb_hit(b, r, tmin, t1),
        t1 <= tmax,
    ensures
        aabb_hit(b, r, tmin, tmax),
{
    let (tn, td) = choose|tn: int, td: int|
        td > 0 && #[trigger] slab_contains_at(b, r, tn, td) && tmin * td <= tn <= t1 * td;
    assert(t1 * td <= tmax * td) by (nonlinear_arith)
        requires
            td > 0,
            t1 <= tmax,
    ;
    assert(td > 0 && slab_contains_at(b, r, tn, td) && tmin * td <= tn <= tmax * td);
}

/// Widening the box preserves a hit: if an inner box is hit, so is any
/// box that contains it.
pub proof fn lemma_aabb_hit_widens(inner: AABB, outer: AABB, r: Ray, tmin: int, tmax: int)
    requires
        contains_box(outer, inner),
        aabb_hit(inner, r, tmin, tmax),
    ensures
        aabb_hit(outer, r, tmin, tmax),
{
    let (tn, td) = choose|tn: int, td: int|
        td > 0 && #[trigger] slab_contains_at(inner, r, tn, td) && tmin * td <= tn <= tmax * td;
    assert((outer.min.x as int) * 65536 * td <= (inner.min.x as int) * 65536 * td && (
    inner.max.x as int) * 65536 * td <= (outer.max.x as int) * 65536 * td && (outer.min.y as int)
        * 65536 * td <= (inner.min.y as int) * 65536 * td && (inner.max.y as int) * 65536 * td <= (
    outer.max.y as int) * 65536 * td && (outer.min.z as int) * 65536 * td <= (
    inner.min.z as int) * 65536 * td && (inner.max.z as int) * 65536 * td <= (outer.max.z as int)
        * 65536 * td) by (nonlinear_arith)
        requires
            td > 0,
            (outer.min.x as int) <= (inner.min.x as int),
            (inner.max.x as int) <= (outer.max.x as int),
            (outer.min.y as int) <= (inner.min.y as int),
            (inner.max.y as int) <= (outer.max.y as int),
            (outer.min.z as int) <= (inner.min.z as int),
            (inner.max.z as int) <= (outer.max.z as int),
    ;
    assert(slab_contains_at(outer, r, tn, td));
}

} // verus!
