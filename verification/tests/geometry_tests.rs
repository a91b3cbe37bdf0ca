//! Geometry-level checks: fixed-point arithmetic, boxes, spheres,
//! rectangles, and the decorators.

use raytracer::aabb::AABB;
use raytracer::fixed::{div_fx, ffmax, ffmin, isqrt_u128, mul_fx};
use raytracer::hit::{Cube, Hitable, Sphere, Translate, XyRect, XzRect, YzRect};
use raytracer::ray::Ray;
use raytracer::trig::{fx_atan2, fx_cos, fx_sin};
use raytracer::vec3::Vec3;

const ONE: i64 = 65536;

fn v(x: f64, y: f64, z: f64) -> Vec3 {
    Vec3 {
        x: (x * 65536.0).round() as i64,
        y: (y * 65536.0).round() as i64,
        z: (z * 65536.0).round() as i64,
    }
}

fn to_f(x: i64) -> f64 {
    x as f64 / 65536.0
}

#[test]
fn fixed_products_and_quotients_are_exact() {
    assert_eq!(mul_fx(3 * ONE, 2 * ONE), 6 * ONE);
    assert_eq!(mul_fx(-3 * ONE, 2 * ONE), -6 * ONE);
    assert_eq!(div_fx(6 * ONE, 2 * ONE), 3 * ONE);
    assert_eq!(div_fx(ONE, 2 * ONE), ONE / 2);
    assert_eq!(mul_fx(ONE / 2, ONE / 2), ONE / 4);
    assert_eq!(ffmin(3, 7), 3);
    assert_eq!(ffmax(3, 7), 7);
}

#[test]
fn integer_square_root_brackets_its_input() {
    for n in [0u128, 1, 2, 3, 4, 15, 16, 65536, 123456789, 1 << 80] {
        let r = isqrt_u128(n) as u128;
        assert!(r * r <= n);
        assert!((r + 1) * (r + 1) > n);
    }
}

#[test]
fn sine_hits_the_cardinal_points() {
    assert_eq!(fx_sin(0), 0);
    // A quarter turn: one, up to the final rounding.
    assert!((fx_sin(102944) - 65536).abs() <= 2);
    // Half a turn: back near zero.
    assert!(fx_sin(205887).abs() < 16);
    // Three quarters: near minus one.
    assert!((fx_sin(308831) + 65536).abs() < 600);
    assert_eq!(fx_cos(0), fx_sin(102944));
    assert!(fx_cos(0) >= 65534);
    // The approximation stays within a percent of the real sine.
    for k in -20..20i64 {
        let x = k * 20000;
        let approx = to_f(fx_sin(x));
        let exact = to_f(x).sin();
        assert!((approx - exact).abs() < 0.011, "sin({}) = {} vs {}", to_f(x), approx, exact);
    }
}

#[test]
fn atan2_quadrants_have_the_right_signs() {
    assert_eq!(fx_atan2(0, ONE), 0);
    assert!((to_f(fx_atan2(ONE, 0)) - std::f64::consts::FRAC_PI_2).abs() < 0.01);
    assert!(fx_atan2(ONE, ONE) > 0);
    assert!(fx_atan2(-ONE, ONE) < 0);
    assert!(to_f(fx_atan2(ONE, -ONE)) > 2.0);
    assert!(to_f(fx_atan2(-ONE, -ONE)) < -2.0);
}

#[test]
fn surrounding_box_contains_both_inputs() {
    let a = AABB { min: v(-1.0, -2.0, -3.0), max: v(1.0, 0.5, 2.0) };
    let b = AABB { min: v(0.0, -5.0, 1.0), max: v(4.0, -4.0, 6.0) };
    let s = AABB::surrounding_box(a, b);
    for bx in [a, b] {
        for px in [bx.min.x, bx.max.x] {
            for py in [bx.min.y, bx.max.y] {
                for pz in [bx.min.z, bx.max.z] {
                    assert!(s.min.x <= px && px <= s.max.x);
                    assert!(s.min.y <= py && py <= s.max.y);
                    assert!(s.min.z <= pz && pz <= s.max.z);
                }
            }
        }
    }
}

#[test]
fn slab_test_accepts_a_crossing_ray_and_rejects_a_parallel_one() {
    let b = AABB { min: v(-1.0, -1.0, -1.0), max: v(1.0, 1.0, 1.0) };
    let through = Ray { origin: v(0.0, 0.0, -5.0), direction: v(0.0, 0.0, 1.0) };
    assert!(b.hit(&through, 0, 100 * ONE));
    // Parallel to the z slabs and outside them: the exact test rejects.
    let parallel = Ray { origin: v(0.0, 5.0, -5.0), direction: v(0.0, 0.0, 1.0) };
    assert!(!b.hit(&parallel, 0, 100 * ONE));
    // Behind the interval.
    assert!(!b.hit(&through, 10 * ONE, 100 * ONE));
}

#[test]
fn sphere_hit_through_center_lands_on_the_surface() {
    let s = Sphere { center: v(0.0, 0.0, 10.0), radius: 2 * ONE, mat: 0 };
    let ra = Ray { origin: v(0.0, 0.0, 0.0), direction: v(0.0, 0.0, 1.0) };
    let h = s.hit(&ra, 66, 1 << 40).expect("the ray points at the sphere");
    assert!(h.t > 0);
    let dx = to_f(h.p.x) - 0.0;
    let dy = to_f(h.p.y) - 0.0;
    let dz = to_f(h.p.z) - 10.0;
    let dist = (dx * dx + dy * dy + dz * dz).sqrt();
    assert!((dist - 2.0).abs() < 0.001, "|p - C| = {}", dist);
    assert!(h.front_face);
    // The normal faces the ray.
    assert!(h.normal.z < 0);
}

#[test]
fn sphere_miss_returns_none() {
    let s = Sphere { center: v(0.0, 0.0, 10.0), radius: 2 * ONE, mat: 0 };
    let ra = Ray { origin: v(0.0, 0.0, 0.0), direction: v(0.0, 1.0, 0.0) };
    assert!(s.hit(&ra, 66, 1 << 40).is_none());
    // A hit beyond t_max is not reported.
    let toward = Ray { origin: v(0.0, 0.0, 0.0), direction: v(0.0, 0.0, 1.0) };
    assert!(s.hit(&toward, 66, 4 * ONE).is_none());
}

#[test]
fn rectangles_report_plane_crossings_with_surface_coordinates() {
    let r = XyRect { x0: -ONE, x1: ONE, y0: -ONE, y1: ONE, k: 3 * ONE, mat: 5 };
    let ra = Ray { origin: v(0.0, 0.0, 0.0), direction: v(0.0, 0.0, 1.0) };
    let h = r.hit(&ra, 66, 1 << 40).expect("crossing");
    assert_eq!(h.t, 3 * ONE);
    assert_eq!(h.mat, 5);
    assert_eq!(h.fu, ONE / 2);
    assert_eq!(h.fv, ONE / 2);
    // Outside the extents: no hit.
    let wide = Ray { origin: v(5.0, 0.0, 0.0), direction: v(0.0, 0.0, 1.0) };
    assert!(r.hit(&wide, 66, 1 << 40).is_none());

    let xz = XzRect { x0: -ONE, x1: ONE, z0: -ONE, z1: ONE, k: 2 * ONE, mat: 1 };
    let up = Ray { origin: v(0.0, 0.0, 0.0), direction: v(0.0, 1.0, 0.0) };
    assert_eq!(xz.hit(&up, 66, 1 << 40).expect("crossing").t, 2 * ONE);

    let yz = YzRect { y0: -ONE, y1: ONE, z0: -ONE, z1: ONE, k: 2 * ONE, mat: 2 };
    let right = Ray { origin: v(0.0, 0.0, 0.0), direction: v(1.0, 0.0, 0.0) };
    assert_eq!(yz.hit(&right, 66, 1 << 40).expect("crossing").t, 2 * ONE);
}

#[test]
fn cube_reports_the_near_face_first() {
    let c = Cube::new(v(-1.0, -1.0, 4.0), v(1.0, 1.0, 6.0), 3);
    let ra = Ray { origin: v(0.0, 0.0, 0.0), direction: v(0.0, 0.0, 1.0) };
    let h = c.hit(&ra, 66, 1 << 40).expect("the ray enters the box");
    assert_eq!(h.t, 4 * ONE);
    assert_eq!(h.mat, 3);
    // The box is the corner pair, padded by the rounding-drift margin.
    let b = c.bounding_box();
    assert_eq!(b.min, Vec3 { x: -17 * ONE, y: -17 * ONE, z: -12 * ONE });
    assert_eq!(b.max, Vec3 { x: 17 * ONE, y: 17 * ONE, z: 22 * ONE });
}

#[test]
fn translate_round_trips_the_hit_point() {
    let child = Sphere { center: v(0.0, 0.0, 10.0), radius: 2 * ONE, mat: 0 };
    let offset = v(3.0, -1.0, 2.0);
    let tr = Hitable::Translate(Translate {
        offset,
        child: Box::new(Hitable::Sphere(child)),
    });
    let ra = Ray { origin: v(3.0, -1.0, 2.0), direction: v(0.0, 0.0, 1.0) };
    let moved = Ray {
        origin: Vec3 {
            x: ra.origin.x - offset.x,
            y: ra.origin.y - offset.y,
            z: ra.origin.z - offset.z,
        },
        direction: ra.direction,
    };
    let outer = tr.hit(&ra, 66, 1 << 40).expect("hit through the translate");
    let inner = child.hit(&moved, 66, 1 << 40).expect("hit against the bare child");
    assert_eq!(outer.t, inner.t);
    assert_eq!(outer.p.x - offset.x, inner.p.x);
    assert_eq!(outer.p.y - offset.y, inner.p.y);
    assert_eq!(outer.p.z - offset.z, inner.p.z);
    assert_eq!(outer.fu, inner.fu);
    assert_eq!(outer.fv, inner.fv);
    assert_eq!(outer.mat, inner.mat);
}

#[test]
fn constant_medium_with_zero_density_never_interacts() {
    let boundary = Hitable::Sphere(Sphere { center: v(0.0, 0.0, 10.0), radius: 4 * ONE, mat: 0 });
    let fog = Hitable::ConstantMedium(raytracer::hit::ConstantMedium {
        density: 0,
        boundary: Box::new(boundary),
        phase: 1,
    });
    let ra = Ray { origin: v(0.0, 0.0, 0.0), direction: v(0.0, 0.0, 1.0) };
    for _ in 0..200 {
        assert!(fog.hit(&ra, 66, 1 << 40).is_none());
    }
}

#[test]
fn constant_medium_with_high_density_interacts_inside_the_boundary() {
    let boundary = Hitable::Sphere(Sphere { center: v(0.0, 0.0, 10.0), radius: 4 * ONE, mat: 0 });
    let fog = Hitable::ConstantMedium(raytracer::hit::ConstantMedium {
        density: 400 * ONE,
        boundary: Box::new(boundary),
        phase: 1,
    });
    let ra = Ray { origin: v(0.0, 0.0, 0.0), direction: v(0.0, 0.0, 1.0) };
    let mut interactions = 0;
    for _ in 0..200 {
        if let Some(h) = fog.hit(&ra, 66, 1 << 40) {
            interactions += 1;
            assert_eq!(h.mat, 1);
            // The interaction happens inside the boundary interval.
            assert!(h.t >= 6 * ONE - 66 && h.t <= 14 * ONE + 66, "t = {}", h.t);
        }
    }
    assert!(interactions > 150);
}
