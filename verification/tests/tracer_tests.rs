//! Scene-level checks: the hierarchy against the linear scan, the
//! sampling subsystem, materials, textures, and the integrator.

use rand::Rng;
use rand::SeedableRng;
use raytracer::hit::{Hitable, Sphere, XyRect, XzRect};
use raytracer::material::{DiffuseLight, Lambertian, Material, Metal};
use raytracer::pdf::{CosinePdf, Pdf};
use raytracer::ray::Ray;
use raytracer::render::{background_color, ray_color, Background};
use raytracer::texture::{CheckerTexture, ConstantTexture, ImageTexture, Texture};
use raytracer::vec3::Vec3;
use raytracer::world::{hit, World};

const ONE: i64 = 65536;

fn v(x: f64, y: f64, z: f64) -> Vec3 {
    Vec3 {
        x: (x * 65536.0).round() as i64,
        y: (y * 65536.0).round() as i64,
        z: (z * 65536.0).round() as i64,
    }
}

fn to_f(x: i64) -> f64 {
    x as f64 / 65536.0
}

fn test_scene() -> Vec<Hitable> {
    let mut list: Vec<Hitable> = Vec::new();
    for i in 0..4i64 {
        for j in 0..4i64 {
            list.push(Hitable::Sphere(Sphere {
                center: Vec3 { x: (i * 3 - 5) * ONE, y: (j * 3 - 5) * ONE, z: 12 * ONE },
                radius: ONE,
                mat: (i * 4 + j) as usize,
            }));
        }
    }
    list.push(Hitable::XyRect(XyRect {
        x0: -8 * ONE,
        x1: 8 * ONE,
        y0: -8 * ONE,
        y1: 8 * ONE,
        k: 20 * ONE,
        mat: 16,
    }));
    for i in 0..4i64 {
        list.push(Hitable::Sphere(Sphere {
            center: Vec3 { x: (2 * i - 3) * ONE, y: 0, z: (8 + i) * ONE },
            radius: ONE / 2,
            mat: 17,
        }));
    }
    list
}

#[test]
fn bvh_matches_the_linear_scan_on_random_rays() {
    let list = test_scene();
    assert!(list.len() >= 20);
    let world = World::new(list.clone()).expect("every item has a box");
    let mut rng = rand::rngs::StdRng::seed_from_u64(42);
    for _ in 0..1000 {
        let origin = Vec3 {
            x: rng.gen_range(-6 * ONE..6 * ONE),
            y: rng.gen_range(-6 * ONE..6 * ONE),
            z: rng.gen_range(-4 * ONE..0),
        };
        let direction = Vec3 {
            x: rng.gen_range(-ONE..ONE),
            y: rng.gen_range(-ONE..ONE),
            z: rng.gen_range(ONE / 2..2 * ONE),
        };
        let ra = Ray { origin, direction };
        let from_tree = world.hit(&ra, 66, 1 << 40);
        let from_scan = hit(&list, &ra, 66, 1 << 40);
        match (from_tree, from_scan) {
            (None, None) => {},
            (Some(a), Some(b)) => {
                assert_eq!(a.t, b.t, "closest parameter must agree");
                assert_eq!(a.p, b.p, "closest point must agree");
                assert_eq!(a.mat, b.mat, "closest material must agree");
            },
            (a, b) => panic!("tree {:?} vs scan {:?}", a.is_some(), b.is_some()),
        }
    }
}

#[test]
fn world_of_an_empty_list_is_none() {
    assert!(World::new(Vec::new()).is_none());
}

#[test]
fn cosine_pdf_integrates_to_one_over_the_hemisphere() {
    let p = Pdf::Cosine(CosinePdf::new(v(0.0, 0.0, 1.0)));
    let mut rng = rand::rngs::StdRng::seed_from_u64(7);
    let n = 20000usize;
    let mut acc = 0.0f64;
    for _ in 0..n {
        // A uniform direction on the upper hemisphere.
        let z: f64 = rng.gen_range(0.0f64..1.0);
        let phi: f64 = rng.gen_range(0.0f64..std::f64::consts::TAU);
        let s = (1.0 - z * z).sqrt();
        let dir = v(s * phi.cos(), s * phi.sin(), z);
        acc += to_f(p.value(dir));
    }
    // The estimator: mean value times the hemisphere's solid angle.
    let integral = acc / n as f64 * std::f64::consts::TAU;
    assert!((integral - 1.0).abs() < 0.05, "integral = {}", integral);
}

#[test]
fn cosine_pdf_vanishes_below_the_horizon() {
    let p = Pdf::Cosine(CosinePdf::new(v(0.0, 0.0, 1.0)));
    assert_eq!(p.value(v(0.0, 0.3, -1.0)), 0);
    assert!(p.value(v(0.0, 0.0, 1.0)) > 0);
}

#[test]
fn metal_with_no_fuzz_reflects_exactly_and_reproducibly() {
    let texs = vec![Texture::Constant(ConstantTexture { color: v(0.8, 0.85, 0.88) })];
    let mats = vec![Material::Metal(Metal { albedo: 0, fuzzy: 0 })];
    let mirror = XyRect { x0: -10 * ONE, x1: 10 * ONE, y0: -10 * ONE, y1: 10 * ONE, k: 0, mat: 0 };
    let ra = Ray { origin: v(0.0, 0.0, -5.0), direction: v(0.0, 0.0, 1.0) };
    let h = mirror.hit(&ra, 66, 1 << 40).expect("the ray strikes the mirror");
    let first = mats[0].scatter(&ra, &h, &texs).expect("a frontal ray reflects");
    // The mirror formula, exactly: the incoming unit direction with its
    // normal component negated.
    assert_eq!(first.scattered.direction, v(0.0, 0.0, -1.0));
    assert!(first.is_specular);
    // Bit-for-bit reproducible: no randomness is consumed at zero fuzz.
    for _ in 0..50 {
        let again = mats[0].scatter(&ra, &h, &texs).expect("still reflects");
        assert_eq!(again.scattered.direction, first.scattered.direction);
        assert_eq!(again.scattered.origin, first.scattered.origin);
    }
}

#[test]
fn metal_absorbs_grazing_rays_that_end_up_inside() {
    let texs = vec![Texture::Constant(ConstantTexture { color: v(0.8, 0.85, 0.88) })];
    let mats = vec![Material::Metal(Metal { albedo: 0, fuzzy: 0 })];
    let mirror = XyRect { x0: -10 * ONE, x1: 10 * ONE, y0: -10 * ONE, y1: 10 * ONE, k: 0, mat: 0 };
    let ra = Ray { origin: v(0.0, 0.0, -5.0), direction: v(0.0, 0.0, 1.0) };
    let mut h = mirror.hit(&ra, 66, 1 << 40).expect("strike");
    // Force the normal to point along the ray: the reflection lands
    // inside and is absorbed.
    h.normal = v(0.0, 0.0, 1.0);
    assert!(mats[0].scatter(&ra, &h, &texs).is_none());
}

#[test]
fn diffuse_light_emits_only_on_its_front_face() {
    let texs = vec![Texture::Constant(ConstantTexture { color: v(15.0, 15.0, 15.0) })];
    let mats = vec![Material::DiffuseLight(DiffuseLight { emit: 0 })];
    let lamp = XzRect { x0: -ONE, x1: ONE, z0: -ONE, z1: ONE, k: 5 * ONE, mat: 0 };
    let from_below = Ray { origin: v(0.0, 0.0, 0.0), direction: v(0.0, 1.0, 0.0) };
    let h = lamp.hit(&from_below, 66, 1 << 40).expect("strike");
    assert!(mats[0].scatter(&from_below, &h, &texs).is_none());
    let lit = mats[0].emitted(&h, h.fu, h.fv, h.p, &texs);
    if h.front_face {
        assert_eq!(lit, v(15.0, 15.0, 15.0));
    } else {
        assert_eq!(lit, v(0.0, 0.0, 0.0));
    }
    // The same surface from the other side gives the other answer.
    let from_above = Ray { origin: v(0.0, 10.0, 0.0), direction: v(0.0, -1.0, 0.0) };
    let h2 = lamp.hit(&from_above, 66, 1 << 40).expect("strike");
    assert_ne!(h.front_face, h2.front_face);
    let lit2 = mats[0].emitted(&h2, h2.fu, h2.fv, h2.p, &texs);
    assert_ne!(lit, lit2);
}

#[test]
fn checker_texture_picks_each_child_somewhere() {
    let texs = vec![
        Texture::Constant(ConstantTexture { color: v(1.0, 0.0, 0.0) }),
        Texture::Constant(ConstantTexture { color: v(0.0, 1.0, 0.0) }),
        Texture::Checker(CheckerTexture { odd: 0, even: 1 }),
    ];
    let mut seen_odd = false;
    let mut seen_even = false;
    for i in 0..40 {
        let p = Vec3 { x: i * ONE / 5, y: ONE / 3, z: ONE / 7 };
        let c = raytracer::texture::value_at(&texs, 2, 0, 0, p);
        if c == v(1.0, 0.0, 0.0) {
            seen_odd = true;
        }
        if c == v(0.0, 1.0, 0.0) {
            seen_even = true;
        }
    }
    assert!(seen_odd && seen_even);
}

#[test]
fn image_texture_reads_the_addressed_pixel() {
    // A 2 x 2 raster: red, green / blue, white.
    let data = vec![255, 0, 0, 0, 255, 0, 0, 0, 255, 255, 255, 255];
    let texs = vec![Texture::Image(ImageTexture { width: 2, height: 2, data })];
    // u = 0, v = 1 addresses the top-left pixel (v flips).
    let c = raytracer::texture::value_at(&texs, 0, 0, ONE, v(0.0, 0.0, 0.0));
    assert_eq!(c, Vec3 { x: ONE, y: 0, z: 0 });
    let c2 = raytracer::texture::value_at(&texs, 0, ONE, ONE, v(0.0, 0.0, 0.0));
    assert_eq!(c2, Vec3 { x: 0, y: ONE, z: 0 });
    let c3 = raytracer::texture::value_at(&texs, 0, ONE, 0, v(0.0, 0.0, 0.0));
    assert_eq!(c3, Vec3 { x: ONE, y: ONE, z: ONE });
}

#[test]
fn perlin_tables_are_complete_permutation_fodder() {
    let p = raytracer::perlin::Perlin::new();
    assert_eq!(p.ranvec.len(), 256);
    assert_eq!(p.perm_x.len(), 256);
    assert!(p.perm_x.iter().all(|&i| i < 256));
    // Noise stays bounded over a spread of points.
    for i in -10..10i64 {
        let n = p.noise(Vec3 { x: i * ONE / 3, y: i * ONE / 5, z: i * ONE / 7 });
        assert!(n.abs() <= 3 * ONE);
    }
}

#[test]
fn camera_with_closed_aperture_shoots_from_its_position() {
    let cam = raytracer::camera::Camera::new(
        ((40.0f64.to_radians() / 2.0).tan() * 65536.0) as i64,
        ONE,
        64,
        v(278.0, 278.0, -800.0),
        v(278.0, 278.0, 0.0),
        v(0.0, 1.0, 0.0),
        0,
    );
    assert_eq!(cam.width, 64);
    assert_eq!(cam.height, 64);
    let ra = cam.get_ray(ONE / 2, ONE / 2);
    assert_eq!(ra.origin, v(278.0, 278.0, -800.0));
    // The central ray looks toward the scene.
    assert!(ra.direction.z > 0);
}

#[test]
fn escaped_rays_return_the_background_blend() {
    let bg = Some(Background { top: v(0.5, 0.7, 1.0), bottom: v(1.0, 1.0, 1.0) });
    let up = Ray { origin: v(0.0, 0.0, 0.0), direction: v(0.0, 1.0, 0.0) };
    let c = background_color(&bg, &up);
    // Straight up: the top colour, within rounding.
    assert!((to_f(c.x) - 0.5).abs() < 0.01);
    assert!((to_f(c.z) - 1.0).abs() < 0.01);
    let down = Ray { origin: v(0.0, 0.0, 0.0), direction: v(0.0, -1.0, 0.0) };
    let c2 = background_color(&down_bg(), &down);
    assert!((to_f(c2.x) - 1.0).abs() < 0.01);
    assert_eq!(background_color(&None, &up), Vec3 { x: 0, y: 0, z: 0 });
}

fn down_bg() -> Option<Background> {
    Some(Background { top: v(0.5, 0.7, 1.0), bottom: v(1.0, 1.0, 1.0) })
}

#[test]
fn lambertian_sphere_is_darker_than_the_unoccluded_background() {
    let texs = vec![Texture::Constant(ConstantTexture { color: v(0.5, 0.5, 0.5) })];
    let mats = vec![Material::Lambertian(Lambertian { albedo: 0 })];
    let list = vec![Hitable::Sphere(Sphere {
        center: v(0.0, 0.0, 10.0),
        radius: 2 * ONE,
        mat: 0,
    })];
    let world = World::new(list).expect("boxed");
    let light = Hitable::XzRect(XzRect {
        x0: -ONE,
        x1: ONE,
        z0: -ONE,
        z1: ONE,
        k: 100 * ONE,
        mat: 0,
    });
    let bg = Some(Background { top: v(0.5, 0.7, 1.0), bottom: v(1.0, 1.0, 1.0) });
    let ra = Ray { origin: v(0.0, 0.0, 0.0), direction: v(0.0, 0.0, 1.0) };
    let pixel = ray_color(&ra, &world, &light, &bg, &mats, &texs, 1);
    let unoccluded = background_color(&bg, &ra);
    assert!(unoccluded.x > 0 && unoccluded.y > 0 && unoccluded.z > 0);
    assert!(pixel.x < unoccluded.x);
    assert!(pixel.y < unoccluded.y);
    assert!(pixel.z < unoccluded.z);
}

#[test]
fn ray_color_at_depth_zero_is_black() {
    let texs = vec![Texture::Constant(ConstantTexture { color: v(0.5, 0.5, 0.5) })];
    let mats = vec![Material::Lambertian(Lambertian { albedo: 0 })];
    let list = vec![Hitable::Sphere(Sphere {
        center: v(0.0, 0.0, 10.0),
        radius: 2 * ONE,
        mat: 0,
    })];
    let world = World::new(list).expect("boxed");
    let light = Hitable::XzRect(XzRect { x0: -ONE, x1: ONE, z0: -ONE, z1: ONE, k: 100 * ONE, mat: 0 });
    let bg = Some(Background { top: v(0.5, 0.7, 1.0), bottom: v(1.0, 1.0, 1.0) });
    let ra = Ray { origin: v(0.0, 0.0, 0.0), direction: v(0.0, 0.0, 1.0) };
    let pixel = ray_color(&ra, &world, &light, &bg, &mats, &texs, 0);
    assert_eq!(pixel, Vec3 { x: 0, y: 0, z: 0 });
}

#[test]
fn random_sources_stay_in_their_ranges() {
    for _ in 0..2000 {
        let u = raytracer::random::random_double();
        assert!((0..65536).contains(&u));
        let i = raytracer::random::random_index(3, 10);
        assert!((3..10).contains(&i));
        let r = raytracer::random::random_double_range(-2 * ONE, 5 * ONE);
        assert!(-2 * ONE <= r && r <= 5 * ONE);
        let s = raytracer::random::random_in_unit_sphere();
        let len2 = to_f(s.x) * to_f(s.x) + to_f(s.y) * to_f(s.y) + to_f(s.z) * to_f(s.z);
        assert!(len2 < 1.01);
        let c = raytracer::random::random_cosine_direction();
        assert!(c.z > 0);
    }
}

#[test]
fn cosine_pdf_value_along_the_normal_is_one_over_pi() {
    let p = Pdf::Cosine(CosinePdf::new(v(0.0, 0.0, 1.0)));
    // 1/pi at the fixed scale, rounded down.
    assert_eq!(p.value(v(0.0, 0.0, 1.0)), 20860);
}

#[test]
fn dielectric_always_scatters_specularly_with_unit_attenuation() {
    let texs: Vec<Texture> = Vec::new();
    let mats = vec![Material::Dielectric(raytracer::material::Dielectric {
        ref_idx: (1.5 * 65536.0) as i64,
    })];
    let glass = Sphere { center: v(0.0, 0.0, 10.0), radius: 2 * ONE, mat: 0 };
    let ra = Ray { origin: v(0.0, 0.5, 0.0), direction: v(0.0, 0.0, 1.0) };
    let h = glass.hit(&ra, 66, 1 << 40).expect("strike");
    for _ in 0..50 {
        let s = mats[0].scatter(&ra, &h, &texs).expect("glass never absorbs");
        assert!(s.is_specular);
        assert_eq!(s.attenuation, v(1.0, 1.0, 1.0));
        // The refracted or reflected ray leaves the hit point, bent
        // toward the normal or mirrored: in both cases it keeps moving.
        let d = s.scattered.direction;
        assert!(d.x != 0 || d.y != 0 || d.z != 0);
    }
}

#[test]
fn rotate_y_by_a_quarter_turn_swaps_the_axes() {
    let child = Hitable::Sphere(Sphere { center: v(10.0, 0.0, 0.0), radius: ONE, mat: 0 });
    // A quarter turn: sine one, cosine zero.
    let rot = Hitable::RotateY(raytracer::hit::RotateY::new(child, ONE, 0));
    // The rotated sphere sits where z used to be; a ray along -z from
    // above it must strike it.
    let ra = Ray { origin: v(0.0, 0.0, -10.0), direction: v(0.0, 0.0, -1.0) };
    // Object space: the ray is rotated; the hit comes back in world
    // space. A ray toward world -z maps onto the child's +x axis.
    let h = rot.hit(&ra, 66, 1 << 40);
    assert!(h.is_none() || h.unwrap().t > 0);
    let toward = Ray { origin: v(0.0, 0.0, 0.0), direction: v(0.0, 0.0, -1.0) };
    let h2 = rot.hit(&toward, 66, 1 << 40).expect("the rotated sphere sits at world -z");
    assert!((to_f(h2.t) - 9.0).abs() < 0.01);
}

#[test]
fn noise_texture_shades_within_the_unit_interval() {
    let texs = vec![Texture::Noise(raytracer::texture::NoiseTexture {
        noise: raytracer::perlin::Perlin::new(),
        scale: 4 * ONE,
    })];
    for i in 0..50i64 {
        let p = Vec3 { x: i * ONE / 3, y: -i * ONE / 2, z: i * ONE / 5 };
        let c = raytracer::texture::value_at(&texs, 0, 0, 0, p);
        assert!(c.x >= 0 && c.x <= ONE);
        assert_eq!(c.x, c.y);
        assert_eq!(c.y, c.z);
    }
}

#[test]
fn basis_from_a_normal_is_nearly_orthonormal() {
    let b = raytracer::onb::ONB::build_from_w(v(1.0, 2.0, -0.5));
    let dotf = |a: Vec3, c: Vec3| -> f64 {
        to_f(a.x) * to_f(c.x) + to_f(a.y) * to_f(c.y) + to_f(a.z) * to_f(c.z)
    };
    assert!(dotf(b.u, b.v).abs() < 0.01);
    assert!(dotf(b.v, b.w).abs() < 0.01);
    assert!((dotf(b.w, b.w) - 1.0).abs() < 0.01);
    // The frame's vertical is the unit normal itself.
    let n = v(1.0, 2.0, -0.5);
    let nl = (dotf(n, n)).sqrt();
    assert!((to_f(b.w.x) - to_f(n.x) / nl).abs() < 0.001);
}

#[test]
fn dielectric_reflects_totally_past_the_critical_angle() {
    let texs: Vec<Texture> = Vec::new();
    let mats = vec![Material::Dielectric(raytracer::material::Dielectric {
        ref_idx: (1.5 * 65536.0) as i64,
    })];
    let surface = XyRect { x0: -100 * ONE, x1: 100 * ONE, y0: -100 * ONE, y1: 100 * ONE, k: 0, mat: 0 };
    // A shallow ray from below: the glass-to-air crossing is past the
    // critical angle, so every draw reflects; no randomness decides.
    let ra = Ray { origin: v(-10.0, 0.0, -2.5), direction: v(1.0, 0.0, 0.25) };
    let h = surface.hit(&ra, 66, 1 << 40).expect("strike");
    assert!(!h.front_face);
    let first = mats[0].scatter(&ra, &h, &texs).expect("glass never absorbs");
    assert!(first.is_specular);
    // Reflected back down, keeping its forward motion.
    assert!(first.scattered.direction.z < 0);
    assert!(first.scattered.direction.x > 0);
    for _ in 0..30 {
        let again = mats[0].scatter(&ra, &h, &texs).expect("still reflects");
        assert_eq!(again.scattered.direction, first.scattered.direction);
    }
}

#[test]
fn turbulence_is_a_bounded_deterministic_field() {
    let p = raytracer::perlin::Perlin::new();
    for i in 0..30i64 {
        let q = Vec3 { x: i * ONE / 2, y: i * ONE / 3, z: -i * ONE / 4 };
        let a = p.turb(q);
        let b = p.turb(q);
        assert_eq!(a, b);
        assert!(a >= 0 && a <= 6 * ONE);
    }
}

#[test]
fn a_direct_view_of_the_light_returns_its_emitted_colour() {
    let texs = vec![Texture::Constant(ConstantTexture { color: v(15.0, 15.0, 15.0) })];
    let mats = vec![Material::DiffuseLight(DiffuseLight { emit: 0 })];
    let lamp = XzRect { x0: -ONE, x1: ONE, z0: -ONE, z1: ONE, k: 5 * ONE, mat: 0 };
    let world = World::new(vec![Hitable::XzRect(lamp)]).expect("boxed");
    let light = Hitable::XzRect(lamp);
    // Looking down onto the lamp's front face: the pixel is exactly the
    // emitted colour, with no bounce.
    let ra = Ray { origin: v(0.0, 10.0, 0.0), direction: v(0.0, -1.0, 0.0) };
    let pixel = ray_color(&ra, &world, &light, &None, &mats, &texs, 5);
    assert_eq!(pixel, v(15.0, 15.0, 15.0));
    // From below, the back face is dark.
    let rb = Ray { origin: v(0.0, 0.0, 0.0), direction: v(0.0, 1.0, 0.0) };
    let dark = ray_color(&rb, &world, &light, &None, &mats, &texs, 5);
    assert_eq!(dark, v(0.0, 0.0, 0.0));
}

#[test]
fn permutation_tables_hold_every_index_exactly_once() {
    let p = raytracer::perlin::Perlin::perlin_generate_perm();
    let mut seen = [false; 256];
    for &e in p.iter() {
        assert!(e < 256 && !seen[e]);
        seen[e] = true;
    }
    assert!(seen.iter().all(|&b| b));
}

#[test]
fn accumulate_sample_clamps_each_channel_to_the_unit_range() {
    let acc = Vec3 { x: ONE, y: 0, z: 500 };
    let co = Vec3 { x: 70000, y: -5, z: 30000 };
    let r = raytracer::render::accumulate_sample(acc, co);
    assert_eq!(r, Vec3 { x: ONE + ONE, y: 0, z: 500 + 30000 });
}

#[test]
fn finish_pixel_applies_average_gamma_and_byte_scaling() {
    // Four full-white samples stay full white.
    let white = Vec3 { x: 4 * ONE, y: 4 * ONE, z: 4 * ONE };
    assert_eq!(raytracer::render::finish_pixel(white, 4), (255, 255, 255));
    // Black stays black.
    let black = Vec3 { x: 0, y: 0, z: 0 };
    assert_eq!(raytracer::render::finish_pixel(black, 4), (0, 0, 0));
    // A half-intensity channel gamma-corrects to sqrt(1/2) of full
    // scale: isqrt(32768 * 65536) = 46340, then 46340 * 255 / 65536.
    let half = Vec3 { x: 2 * ONE, y: 0, z: 4 * ONE };
    assert_eq!(raytracer::render::finish_pixel(half, 4), (180, 0, 255));
}
