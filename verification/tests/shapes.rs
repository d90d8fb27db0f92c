//! Intersection tests for the geometric primitives.

use rust_ray_tracer::bounding_box::BBox;
use rust_ray_tracer::color::Color;
use rust_ray_tracer::fx::{SCALE, T_HUGE};
use rust_ray_tracer::geometry::{
    solve_quadratic, Parallelepiped, Plane, Sphere, Triangle, TriangleMesh,
};
use rust_ray_tracer::material::Material;
use rust_ray_tracer::point3::Point3;
use rust_ray_tracer::ray::{Ray, T_FAR};
use rust_ray_tracer::vec3::Vec3;

fn white_diffuse() -> Material {
    Material::Lambertian { albedo: Color::new(SCALE, SCALE, SCALE) }
}

fn unit_sphere_in_front() -> Sphere {
    // a sphere of radius one half at (0, 0, -1)
    Sphere {
        center: Point3::new(0, 0, -SCALE),
        radius: SCALE / 2,
        material: white_diffuse(),
    }
}

#[test]
fn sphere_head_on_hit_is_exact() {
    let s = unit_sphere_in_front();
    let ray = Ray::new(Point3::zero(), Vec3::new(0, 0, -SCALE));
    let hit = s.hit_by(&ray, 0, T_FAR).expect("head-on ray must hit");
    assert_eq!(hit.t, 32768); // t = 0.5
    assert_eq!((hit.point.x, hit.point.y, hit.point.z), (0, 0, -32768));
    assert_eq!((hit.normal.x, hit.normal.y, hit.normal.z), (0, 0, SCALE));
    assert!(hit.front_face);
}

#[test]
fn sphere_sideways_ray_misses() {
    let s = unit_sphere_in_front();
    let ray = Ray::new(Point3::zero(), Vec3::new(SCALE, 0, 0));
    assert!(s.hit_by(&ray, 0, T_FAR).is_none());
}

#[test]
fn sphere_hit_normal_opposes_ray() {
    let s = unit_sphere_in_front();
    for (dx, dy) in [(0i64, 0i64), (8192, 0), (0, 8192), (-8192, 8192)] {
        let ray = Ray::new(Point3::zero(), Vec3::new(dx, dy, -SCALE));
        if let Some(hit) = s.hit_by(&ray, 0, T_FAR) {
            let d = (ray.dir.x as i128) * (hit.normal.x as i128)
                + (ray.dir.y as i128) * (hit.normal.y as i128)
                + (ray.dir.z as i128) * (hit.normal.z as i128);
            assert!(d <= 0);
            // the normal has near-unit length
            let n2 = (hit.normal.x as i128).pow(2) + (hit.normal.y as i128).pow(2)
                + (hit.normal.z as i128).pow(2);
            let one = (SCALE as i128) * (SCALE as i128);
            assert!(n2 > one / 2 && n2 < one * 2);
        }
    }
}

#[test]
fn sphere_farther_hit_uses_larger_root_from_inside() {
    // the ray starts at the center, so the smaller root is behind it
    let s = unit_sphere_in_front();
    let ray = Ray::new(Point3::new(0, 0, -SCALE), Vec3::new(0, 0, -SCALE));
    let hit = s.hit_by(&ray, 0, T_FAR).expect("must exit the sphere");
    assert_eq!(hit.t, 32768);
    assert!(!hit.front_face); // struck from inside
}

#[test]
fn quadratic_negative_discriminant_gives_no_root() {
    assert!(solve_quadratic(SCALE, 0, SCALE, 0, T_FAR).is_none());
}

#[test]
fn quadratic_prefers_smaller_root_in_range() {
    // roots at 0.5 and 1.5: a=1, half_b=-1, c=0.75
    let t = solve_quadratic(SCALE, -SCALE, 49152, 0, T_FAR).unwrap();
    assert_eq!(t, 32768);
    // with t_min above the smaller root, the larger one is taken
    let t2 = solve_quadratic(SCALE, -SCALE, 49152, 40000, T_FAR).unwrap();
    assert_eq!(t2, 98304);
}

#[test]
fn plane_head_on_hit() {
    let p = Plane {
        center: Point3::new(0, -32768, 0),
        normal: Vec3::new(0, SCALE, 0),
        material: white_diffuse(),
    };
    let ray = Ray::new(Point3::zero(), Vec3::new(0, -SCALE, 0));
    let hit = p.hit_by(&ray, 0, T_FAR).expect("must hit the floor");
    assert_eq!(hit.t, 32768);
    assert_eq!((hit.point.x, hit.point.y, hit.point.z), (0, -32768, 0));
    assert_eq!((hit.normal.x, hit.normal.y, hit.normal.z), (0, SCALE, 0));
}

#[test]
fn plane_parallel_ray_misses() {
    let p = Plane {
        center: Point3::new(0, -32768, 0),
        normal: Vec3::new(0, SCALE, 0),
        material: white_diffuse(),
    };
    let ray = Ray::new(Point3::zero(), Vec3::new(SCALE, 0, 0));
    assert!(p.hit_by(&ray, 0, T_FAR).is_none());
}

fn front_triangle() -> Triangle {
    Triangle {
        v0: Point3::new(-SCALE, -SCALE, -SCALE),
        v1: Point3::new(SCALE, -SCALE, -SCALE),
        v2: Point3::new(0, SCALE, -SCALE),
        material: white_diffuse(),
    }
}

#[test]
fn triangle_hit_inside_is_exact() {
    let tr = front_triangle();
    let ray = Ray::new(Point3::zero(), Vec3::new(0, 0, -SCALE));
    let hit = tr.hit_by(&ray, 0, T_FAR).expect("must hit the triangle");
    assert_eq!(hit.t, SCALE);
    assert_eq!((hit.point.x, hit.point.y, hit.point.z), (0, 0, -SCALE));
    assert_eq!((hit.normal.x, hit.normal.y, hit.normal.z), (0, 0, SCALE));
}

#[test]
fn triangle_outside_barycentric_misses() {
    let tr = front_triangle();
    let ray = Ray::new(Point3::new(4 * SCALE, 0, 0), Vec3::new(0, 0, -SCALE));
    assert!(tr.hit_by(&ray, 0, T_FAR).is_none());
}

#[test]
fn sliver_triangle_with_degenerate_normal_misses() {
    // edges so thin that the face cross product rounds to the zero
    // vector while the determinant does not: no usable normal, no hit
    let tr = Triangle {
        v0: Point3::new(0, 0, -SCALE),
        v1: Point3::new(30000, -2, -SCALE),
        v2: Point3::new(30000, 2, -SCALE),
        material: white_diffuse(),
    };
    let ray = Ray::new(Point3::zero(), Vec3::new(0, 0, -SCALE));
    assert!(tr.hit_by(&ray, 0, T_FAR).is_none());
}

#[test]
fn triangle_parallel_ray_misses() {
    let tr = front_triangle();
    let ray = Ray::new(Point3::zero(), Vec3::new(SCALE, 0, 0));
    assert!(tr.hit_by(&ray, 0, T_FAR).is_none());
}

#[test]
fn mesh_delegates_to_triangles() {
    let vertices = vec![
        Point3::new(-SCALE, -SCALE, -SCALE),
        Point3::new(SCALE, -SCALE, -SCALE),
        Point3::new(0, SCALE, -SCALE),
    ];
    let indices = vec![0usize, 1, 2];
    let mesh = TriangleMesh::new(&vertices, &indices, white_diffuse());
    let ray = Ray::new(Point3::zero(), Vec3::new(0, 0, -SCALE));
    let hit = mesh.hit_by(&ray, 0, T_FAR).expect("mesh must hit");
    assert_eq!(hit.t, SCALE);
    let b = mesh.bounding_box();
    assert_eq!(b.min.x, -SCALE);
    assert_eq!(b.max.y, SCALE);
}

#[test]
fn parallelepiped_has_twelve_faces_and_is_hittable() {
    let m = white_diffuse();
    let p = Parallelepiped::new(
        Point3::new(-SCALE, -SCALE, -4 * SCALE),
        Point3::new(SCALE, -SCALE, -4 * SCALE),
        Point3::new(-SCALE, SCALE, -4 * SCALE),
        Point3::new(-SCALE, -SCALE, -2 * SCALE),
        m,
    );
    assert_eq!(p.triangles.len(), 12);
    let ray = Ray::new(Point3::zero(), Vec3::new(0, 0, -SCALE));
    let hit = p.hit_by(&ray, 0, T_FAR).expect("box in front must be hit");
    assert!(hit.t > 0);
    assert_eq!(hit.t, 2 * SCALE); // front face at z = -2
}

#[test]
fn bounding_box_merge_laws_on_values() {
    let a = BBox { min: Point3::new(-1, -2, -3), max: Point3::new(4, 5, 6) };
    let b = BBox { min: Point3::new(-7, 0, 2), max: Point3::new(1, 9, 3) };
    let c = BBox { min: Point3::new(0, 0, 0), max: Point3::new(2, 2, 99) };
    let ab = BBox::surrounding_box(a, b);
    let ba = BBox::surrounding_box(b, a);
    assert_eq!((ab.min.x, ab.min.y, ab.min.z), (ba.min.x, ba.min.y, ba.min.z));
    assert_eq!((ab.max.x, ab.max.y, ab.max.z), (ba.max.x, ba.max.y, ba.max.z));
    let ab_c = BBox::surrounding_box(ab, c);
    let a_bc = BBox::surrounding_box(a, BBox::surrounding_box(b, c));
    assert_eq!((ab_c.min.x, ab_c.min.y, ab_c.min.z), (a_bc.min.x, a_bc.min.y, a_bc.min.z));
    assert_eq!((ab_c.max.x, ab_c.max.y, ab_c.max.z), (a_bc.max.x, a_bc.max.y, a_bc.max.z));
    let aa = BBox::surrounding_box(a, a);
    assert_eq!((aa.min.x, aa.max.z), (a.min.x, a.max.z));
}

#[test]
fn bbox_slab_test_prunes_and_accepts() {
    let b = BBox { min: Point3::new(-SCALE, -SCALE, -2 * SCALE), max: Point3::new(SCALE, SCALE, -SCALE) };
    let toward = Ray::new(Point3::zero(), Vec3::new(0, 0, -SCALE));
    assert!(b.hit(&toward, 0, T_FAR));
    let away = Ray::new(Point3::zero(), Vec3::new(0, 0, SCALE));
    assert!(!b.hit(&away, 0, T_FAR));
    // a ray parallel to the box's z-slabs, outside them, misses
    let parallel = Ray::new(Point3::zero(), Vec3::new(SCALE, 0, 0));
    assert!(!b.hit(&parallel, 0, T_FAR));
    assert!(T_HUGE > T_FAR);
}
