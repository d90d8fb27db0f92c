//! Material, integrator, acceleration-structure and scene tests.

use rand::rngs::SmallRng;
use rand::SeedableRng;
use rust_ray_tracer::bvh::BVHNode;
use rust_ray_tracer::color::Color;
use rust_ray_tracer::fx::SCALE;
use rust_ray_tracer::geometry::{hit_list, Shape, Sphere};
use rust_ray_tracer::material::{reflectance, Material};
use rust_ray_tracer::point3::Point3;
use rust_ray_tracer::ray::{Ray, T_FAR};
use rust_ray_tracer::render::{ray_color, ray_color_flat, render_pixel};
use rust_ray_tracer::scene::{
    random_large_scene, setup_scene, setup_small_scene, RenderConfig, ShapeSpec,
};
use rust_ray_tracer::vec3::Vec3;

fn rng(seed: u64) -> SmallRng {
    SmallRng::seed_from_u64(seed)
}

fn config() -> RenderConfig {
    RenderConfig { image_width: 4, image_height: 4, samples_per_pixel: 2, max_depth: 8 }
}

fn white_sphere() -> Sphere {
    Sphere {
        center: Point3::new(0, 0, -SCALE),
        radius: SCALE / 2,
        material: Material::Lambertian { albedo: Color::new(SCALE, SCALE, SCALE) },
    }
}

fn hit_white_sphere() -> rust_ray_tracer::geometry::HitRecord {
    let s = white_sphere();
    let ray = Ray::new(Point3::zero(), Vec3::new(0, 0, -SCALE));
    s.hit_by(&ray, 0, T_FAR).unwrap()
}

#[test]
fn schlick_reflectance_at_normal_incidence_is_r0() {
    // entering glass with ior 1.5: ratio = 1/1.5
    let ratio = rust_ray_tracer::fx::fdiv(SCALE, 98304);
    assert_eq!(ratio, 43690);
    // at cos = 1 the (1 - cos)^5 term vanishes: reflectance == r0 == 0.04
    let d = rust_ray_tracer::fx::fdiv(SCALE - ratio, SCALE + ratio);
    let r0 = rust_ray_tracer::fx::fmul(d, d);
    assert_eq!(reflectance(SCALE, ratio), r0);
    assert_eq!(r0, 2621); // 2621 / 65536 is 0.04 to fixed-point precision
}

#[test]
fn lambertian_scatters_from_hit_point_with_albedo() {
    let hit = hit_white_sphere();
    let ray = Ray::new(Point3::zero(), Vec3::new(0, 0, -SCALE));
    let m = Material::Lambertian { albedo: Color::new(6554, 13107, 32768) };
    let sc = m.scatter(&mut rng(7), &ray, &hit).expect("diffuse always scatters");
    assert_eq!((sc.ray.orig.x, sc.ray.orig.y, sc.ray.orig.z), (hit.point.x, hit.point.y, hit.point.z));
    assert_eq!((sc.attenuation.r, sc.attenuation.g, sc.attenuation.b), (6554, 13107, 32768));
}

#[test]
fn metal_with_zero_fuzz_reflects_exactly() {
    let hit = hit_white_sphere();
    let ray = Ray::new(Point3::zero(), Vec3::new(0, 0, -SCALE));
    let m = Material::Metal { albedo: Color::new(SCALE, SCALE, SCALE), fuzz: 0 };
    let sc = m.scatter(&mut rng(7), &ray, &hit).expect("metal always scatters");
    // reflect((0,0,-1), (0,0,1)) == (0,0,1)
    assert_eq!((sc.ray.dir.x, sc.ray.dir.y, sc.ray.dir.z), (0, 0, SCALE));
}

#[test]
fn black_body_absorbs() {
    let hit = hit_white_sphere();
    let ray = Ray::new(Point3::zero(), Vec3::new(0, 0, -SCALE));
    assert!(Material::BlackBody.scatter(&mut rng(7), &ray, &hit).is_none());
}

#[test]
fn dielectric_scatters_white() {
    let hit = hit_white_sphere();
    let ray = Ray::new(Point3::zero(), Vec3::new(0, 0, -SCALE));
    let m = Material::Dielectric { index_of_refraction: 98304 };
    let sc = m.scatter(&mut rng(7), &ray, &hit).expect("dielectric always scatters here");
    assert_eq!((sc.attenuation.r, sc.attenuation.g, sc.attenuation.b), (SCALE, SCALE, SCALE));
}

#[test]
fn refraction_at_normal_incidence_stays_parallel() {
    let uv = Vec3::new(0, 0, -SCALE);
    let n = Vec3::new(0, 0, SCALE);
    let r = Vec3::refract(uv, n, 43690);
    assert_eq!((r.x, r.y, r.z), (0, 0, -SCALE));
}

#[test]
fn reflection_preserves_length_on_exact_inputs() {
    let v = Vec3::new(-SCALE, -2 * SCALE, 3 * SCALE);
    let n = Vec3::new(0, SCALE, 0);
    let r = v.reflect(n);
    assert_eq!((r.x, r.y, r.z), (-SCALE, 2 * SCALE, 3 * SCALE));
    assert_eq!(v.length2(), r.length2());
}

#[test]
fn ray_color_depth_zero_is_black() {
    let world = BVHNode::from_shapes(&mut rng(3), vec![Shape::Sphere(white_sphere())]);
    let ray = Ray::new(Point3::zero(), Vec3::new(0, 0, -SCALE));
    let c = ray_color(&mut rng(4), &ray, &world, 0);
    assert_eq!((c.r, c.g, c.b), (0, 0, 0));
}

#[test]
fn ray_color_depth_one_hit_is_black() {
    // one bounce: the diffuse hit recurses at depth zero, which is
    // black, and any attenuation of black is black
    let world = BVHNode::from_shapes(&mut rng(3), vec![Shape::Sphere(white_sphere())]);
    let ray = Ray::new(Point3::zero(), Vec3::new(0, 0, -SCALE));
    let c = ray_color(&mut rng(4), &ray, &world, 1);
    assert_eq!((c.r, c.g, c.b), (0, 0, 0));
}

#[test]
fn ray_color_miss_gives_background_gradient() {
    let world = BVHNode::from_shapes(&mut rng(3), vec![Shape::Sphere(white_sphere())]);
    // a horizontal ray blends white and sky at one half
    let ray = Ray::new(Point3::zero(), Vec3::new(SCALE, 0, 0));
    let c = ray_color(&mut rng(4), &ray, &world, 8);
    assert_eq!((c.r, c.g, c.b), (49152, 55705, SCALE));
    // straight up gives the full sky color
    let up = Ray::new(Point3::zero(), Vec3::new(0, SCALE, 0));
    let cu = ray_color(&mut rng(4), &up, &world, 8);
    assert_eq!((cu.r, cu.g, cu.b), (32768, 45875, SCALE));
}

#[test]
fn render_pixel_accumulates_samples() {
    let world = BVHNode::from_shapes(&mut rng(3), vec![Shape::Sphere(white_sphere())]);
    let rays = vec![
        Ray::new(Point3::zero(), Vec3::new(SCALE, 0, 0)),
        Ray::new(Point3::zero(), Vec3::new(SCALE, 0, 0)),
        Ray::new(Point3::zero(), Vec3::new(SCALE, 0, 0)),
        Ray::new(Point3::zero(), Vec3::new(SCALE, 0, 0)),
    ];
    let sum = render_pixel(&mut rng(5), &world, &rays, 8);
    assert_eq!((sum.r, sum.g, sum.b), (4 * 49152, 4 * 55705, 4 * SCALE));
    assert_eq!(rust_ray_tracer::color::map_color_value(sum.r, 4), 221);
    assert_eq!(rust_ray_tracer::color::map_color_value(sum.b, 4), 255);
}

/// A deterministic pseudo-random sphere cloud, written out twice so the
/// tree and the flat list own identical geometry.
fn sphere_cloud() -> Vec<Shape> {
    let mut shapes = Vec::new();
    let mut state: i64 = 12345;
    for _ in 0..24 {
        state = state.wrapping_mul(6364136223846793005).wrapping_add(1442695040888963407);
        let x = (state % 5) * SCALE / 2;
        let y = ((state >> 8) % 5) * SCALE / 2;
        let z = -SCALE - ((state >> 16) % 7).abs() * SCALE / 2;
        let r = SCALE / 4 + ((state >> 24) % 3).abs() * SCALE / 8;
        shapes.push(Shape::Sphere(Sphere {
            center: Point3::new(x, y, z),
            radius: r,
            material: Material::Lambertian { albedo: Color::new(32768, 32768, 32768) },
        }));
    }
    shapes
}

#[test]
fn bvh_agrees_with_flat_list_on_random_rays() {
    let tree = BVHNode::from_shapes(&mut rng(11), sphere_cloud());
    let flat = sphere_cloud();
    let mut state: i64 = 999;
    for _ in 0..400 {
        state = state.wrapping_mul(6364136223846793005).wrapping_add(1442695040888963407);
        let ox = (state % 9) * SCALE / 4;
        let oy = ((state >> 10) % 9) * SCALE / 4;
        let dx = ((state >> 20) % 11) * SCALE / 8;
        let dy = ((state >> 30) % 11) * SCALE / 8;
        let ray = Ray::new(Point3::new(ox, oy, SCALE), Vec3::new(dx, dy, -SCALE));
        let a = tree.hit_by(&ray, 66, T_FAR);
        let b = hit_list(&flat, &ray, 66, T_FAR);
        match (a, b) {
            (None, None) => {}
            (Some(ha), Some(hb)) => {
                assert_eq!(ha.t, hb.t);
                assert_eq!((ha.point.x, ha.point.y, ha.point.z), (hb.point.x, hb.point.y, hb.point.z));
                assert_eq!(
                    (ha.normal.x, ha.normal.y, ha.normal.z),
                    (hb.normal.x, hb.normal.y, hb.normal.z)
                );
                assert_eq!(ha.front_face, hb.front_face);
            }
            (a, b) => panic!("tree and flat list disagree: {:?} vs {:?}", a.is_some(), b.is_some()),
        }
    }
}

#[test]
fn ray_color_flat_matches_tree_on_misses() {
    let tree = BVHNode::from_shapes(&mut rng(11), sphere_cloud());
    let flat = sphere_cloud();
    let ray = Ray::new(Point3::zero(), Vec3::new(0, -SCALE, 0));
    let ct = ray_color(&mut rng(2), &ray, &tree, 4);
    let cf = ray_color_flat(&mut rng(2), &ray, &flat, 4);
    assert_eq!((ct.r, ct.g, ct.b), (cf.r, cf.g, cf.b));
}

#[test]
fn small_scene_has_expected_shapes() {
    let scene = setup_small_scene(config());
    assert_eq!(scene.hittables.len(), 5);
    assert!(matches!(scene.hittables[0], Shape::Plane(_)));
    match &scene.hittables[3] {
        Shape::Sphere(s) => {
            assert_eq!(s.radius, -29491); // the hollow inner shell
        }
        other => panic!("expected a sphere, got {:?}", other),
    }
    let bvh = scene.bvh(&mut rng(1));
    let ray = Ray::new(Point3::zero(), Vec3::new(0, 0, -SCALE));
    let from_tree = bvh.hit_by(&ray, 66, T_FAR).expect("center sphere ahead");
    let from_list = hit_list(&scene.hittables, &ray, 66, T_FAR).expect("center sphere ahead");
    assert_eq!(from_tree.t, from_list.t);
    assert_eq!(from_tree.t, 32768);
}

#[test]
fn setup_scene_builds_requested_count() {
    let scene = setup_scene(&mut rng(42), config(), 30);
    assert_eq!(scene.hittables.len(), 30);
    assert_eq!(scene.render_config.max_depth, 8);
}

#[test]
fn random_large_scene_builds() {
    let scene = random_large_scene(&mut rng(42));
    assert!(scene.hittables.len() >= 4);
    assert_eq!(scene.render_config.image_width, 1200);
    assert_eq!(scene.render_config.samples_per_pixel, 500);
}

#[test]
fn shape_spec_conversion_round_trips_values() {
    let spec = ShapeSpec::Sphere {
        center: Point3::new(1, 2, 3),
        radius: 4,
        material: Material::BlackBody,
    };
    match spec.to_hittable() {
        Shape::Sphere(s) => {
            assert_eq!((s.center.x, s.center.y, s.center.z, s.radius), (1, 2, 3, 4));
        }
        other => panic!("expected a sphere, got {:?}", other),
    }
}

#[test]
fn color_random_is_in_unit_range_and_seeded() {
    let mut r1 = rng(77);
    let mut r2 = rng(77);
    for _ in 0..50 {
        let c1 = Color::random(&mut r1);
        let c2 = Color::random(&mut r2);
        assert_eq!((c1.r, c1.g, c1.b), (c2.r, c2.g, c2.b));
        assert!(c1.r >= 0 && c1.r < SCALE);
        assert!(c1.g >= 0 && c1.g < SCALE);
        assert!(c1.b >= 0 && c1.b < SCALE);
    }
}

#[test]
fn random_unit_sphere_samples_stay_inside() {
    let mut r = rng(5);
    for _ in 0..200 {
        let v = Vec3::random_in_unit_sphere(&mut r);
        assert!(v.length2() < SCALE);
    }
}
