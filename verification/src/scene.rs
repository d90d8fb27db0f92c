//! Scene assembly: render configuration, declarative shape
//! specifications, and the built-in scenes.
//!
//! Reading a scene description from disk, and the camera that turns
//! pixels into rays, live with the I/O around the library; this module
//! holds the verified construction from plain values.

use vstd::prelude::*;
use crate::bvh::{BVHNode, bvh_wf, bvh_items};
use crate::color::Color;
use crate::fx;
use crate::fx::{SCALE, mag, mul_fx};
use crate::geometry::{
    Shape,
    Sphere,
    Plane,
    Triangle,
    TriangleMesh,
    Parallelepiped,
    shape_wf,
    shapes_wf,
    sphere_wf,
    ppd_tris,
    TRI_MAX,
    PPD_MAX,
};
use crate::material::{Material, mat_wf};
use crate::point3::Point3;
use crate::ray::{RayV, WORLD_MAX};
use crate::rng::rand_unit;
use crate::vec3::{V3, Vec3, v3_bounded, lemma_dot_bound, lemma_dot_self_nonneg};

verus! {

/// Image size, sampling rate and recursion depth of a render.
#[derive(Clone, Copy, Debug, PartialEq, Eq, Structural)]
pub struct RenderConfig {
    pub image_width: u32,
    pub image_height: u32,
    pub samples_per_pixel: u32,
    pub max_depth: u32,
}

/// A declarative shape description, built from plain values; the scene
/// loader around the library converts parsed input into these.
#[derive(Clone, Debug)]
pub enum ShapeSpec {
    Sphere { center: Point3, radius: i64, material: Material },
    Plane { center: Point3, normal: Vec3, material: Material },
    Triangle { v0: Point3, v1: Point3, v2: Point3, material: Material },
    Parallelepiped { a: Point3, b: Point3, c: Point3, d: Point3, material: Material },
    Mesh { vertices: Vec<Point3>, indices: Vec<usize>, material: Material },
}

pub open spec fn spec_wf(s: ShapeSpec) -> bool {
    match s {
        ShapeSpec::Sphere { center, radius, material } => v3_bounded(center@, WORLD_MAX as int)
            && 1 <= mag(radius as int) <= WORLD_MAX as int && mat_wf(material),
        ShapeSpec::Plane { center, normal, material } => v3_bounded(center@, WORLD_MAX as int)
            && v3_bounded(normal@, 2 * (SCALE as int)) && mat_wf(material),
        ShapeSpec::Triangle { v0, v1, v2, material } => v3_bounded(v0@, TRI_MAX as int)
            && v3_bounded(v1@, TRI_MAX as int) && v3_bounded(v2@, TRI_MAX as int) && mat_wf(
            material,
        ),
        ShapeSpec::Parallelepiped { a, b, c, d, material } => v3_bounded(a@, PPD_MAX as int)
            && v3_bounded(b@, PPD_MAX as int) && v3_bounded(c@, PPD_MAX as int) && v3_bounded(
            d@,
            PPD_MAX as int,
        ) && mat_wf(material),
        ShapeSpec::Mesh { vertices, indices, material } => (forall|i: int|
            0 <= i < vertices@.len() ==> v3_bounded(#[trigger] vertices@[i]@, TRI_MAX as int)) && (
        forall|i: int| 0 <= i < indices@.len() ==> #[trigger] indices@[i] < vertices@.len())
            && indices@.len() >= 3 && mat_wf(material),
    }
}

/// What `to_hittable` builds from each specification: the plain
/// variants carry every field over unchanged, a parallelepiped becomes
/// its twelve face triangles, a mesh becomes one triangle per index
/// triple.
pub open spec fn spec_to_shape_ok(sp: ShapeSpec, s: Shape) -> bool {
    match sp {
        ShapeSpec::Sphere { center, radius, material } => s == Shape::Sphere(
            Sphere { center, radius, material },
        ),
        ShapeSpec::Plane { center, normal, material } => s == Shape::Plane(
            Plane { center, normal, material },
        ),
        ShapeSpec::Triangle { v0, v1, v2, material } => s == Shape::Triangle(
            Triangle { v0, v1, v2, material },
        ),
        ShapeSpec::Parallelepiped { a, b, c, d, material } => match s {
            Shape::Parallelepiped(p) => p.triangles@.len() == 12 && (forall|i: int|
                0 <= i < 12 ==> ((#[trigger] p.triangles@[i].v0@, p.triangles@[i].v1@,
                p.triangles@[i].v2@) == ppd_tris(a@, b@, c@, d@)[i] && p.triangles@[i].material
                    == material)),
            _ => false,
        },
        ShapeSpec::Mesh { vertices, indices, material } => match s {
            Shape::TriangleMesh(m) => m.triangles@.len() == indices@.len() as int / 3 && (forall|
                i: int,
            |
                0 <= i < m.triangles@.len() ==> #[trigger] m.triangles@[i] == (Triangle {
                    v0: vertices@[indices@[3 * i] as int],
                    v1: vertices@[indices@[3 * i + 1] as int],
                    v2: vertices@[indices@[3 * i + 2] as int],
                    material,
                })),
            _ => false,
        },
    }
}

impl ShapeSpec {
    /// Builds the primitive the specification describes.
    pub fn to_hittable(&self) -> (s: Shape)
        requires
            spec_wf(*self),
        ensures
            shape_wf(s),
            spec_to_shape_ok(*self, s),
    {
        match self {
            ShapeSpec::Sphere { center, radius, material } => Shape::Sphere(
                Sphere { center: *center, radius: *radius, material: *material },
            ),
            ShapeSpec::Plane { center, normal, material } => Shape::Plane(
                Plane { center: *center, normal: *normal, material: *material },
            ),
            ShapeSpec::Triangle { v0, v1, v2, material } => Shape::Triangle(
                Triangle { v0: *v0, v1: *v1, v2: *v2, material: *material },
            ),
            ShapeSpec::Parallelepiped { a, b, c, d, material } => Shape::Parallelepiped(
                Parallelepiped::new(*a, *b, *c, *d, *material),
            ),
            ShapeSpec::Mesh { vertices, indices, material } => Shape::TriangleMesh(
                TriangleMesh::new(vertices, indices, *material),
            ),
        }
    }
}

/// Converts a list of shape specifications into primitives.
pub fn specs_to_shapes(specs: &Vec<ShapeSpec>) -> (v: Vec<Shape>)
    requires
        forall|i: int| 0 <= i < specs@.len() ==> spec_wf(#[trigger] specs@[i]),
    ensures
        v@.len() == specs@.len(),
        shapes_wf(v@),
        forall|i: int| 0 <= i < v@.len() ==> spec_to_shape_ok(specs@[i], #[trigger] v@[i]),
{
    let mut v: Vec<Shape> = Vec::new();
    let mut i: usize = 0;
    while i < specs.len()
        invariant
            i <= specs@.len(),
            forall|k: int| 0 <= k < specs@.len() ==> spec_wf(#[trigger] specs@[k]),
            v@.len() == i,
            shapes_wf(v@),
            forall|k: int| 0 <= k < v@.len() ==> spec_to_shape_ok(specs@[k], #[trigger] v@[k]),
        decreases specs@.len() - i,
    {
        let s: Shape = specs[i].to_hittable();
        v.push(s);
        proof {
            assert forall|k: int| 0 <= k < v@.len() implies shape_wf(#[trigger] v@[k]) by {}
        }
        i = i + 1;
    }
    v
}

/// A scene: the geometry to trace and the render configuration. The
/// camera is part of the surrounding renderer, not of the verified
/// core.
pub struct Scene {
    pub render_config: RenderConfig,
    pub hittables: Vec<Shape>,
}

pub open spec fn scene_wf(s: Scene) -> bool {
    shapes_wf(s.hittables@)
}

/// Copies a triangle list.
fn copy_triangles(ts: &Vec<Triangle>) -> (v: Vec<Triangle>)
    ensures
        v@ == ts@,
{
    let mut v: Vec<Triangle> = Vec::new();
    let mut i: usize = 0;
    while i < ts.len()
        invariant
            i <= ts@.len(),
            v@ == ts@.take(i as int),
        decreases ts@.len() - i,
    {
        v.push(ts[i]);
        proof {
            assert(v@ =~= ts@.take(i as int + 1));
        }
        i = i + 1;
    }
    proof {
        assert(ts@.take(ts@.len() as int) =~= ts@);
    }
    v
}

/// Geometric equality of shapes: value equality for the plain
/// variants, equal triangle sequences for the aggregates. (Verus gives
/// two separately built `Vec`s no spec-level value equality, so a deep
/// copy is pinned by this relation instead.)
pub open spec fn shape_eqv(a: Shape, b: Shape) -> bool {
    match (a, b) {
        (Shape::Sphere(x), Shape::Sphere(y)) => x == y,
        (Shape::Plane(x), Shape::Plane(y)) => x == y,
        (Shape::Triangle(x), Shape::Triangle(y)) => x == y,
        (Shape::TriangleMesh(x), Shape::TriangleMesh(y)) => x.triangles@ == y.triangles@,
        (Shape::Parallelepiped(x), Shape::Parallelepiped(y)) => x.triangles@ == y.triangles@,
        _ => false,
    }
}

/// Geometrically equal shapes are interchangeable: same
/// well-formedness, same bounding box, same hit on every ray and
/// range.
pub proof fn lemma_shape_eqv_interchangeable(a: Shape, b: Shape, r: RayV, t_min: int, t_max: int)
    requires
        shape_eqv(a, b),
    ensures
        shape_wf(a) == shape_wf(b),
        crate::geometry::shape_bbox_fx(a) == crate::geometry::shape_bbox_fx(b),
        crate::geometry::shape_hit_fx(a, r, t_min, t_max) == crate::geometry::shape_hit_fx(
            b,
            r,
            t_min,
            t_max,
        ),
{
}

impl Shape {
    /// A deep copy with the same geometry (`shape_eqv`).
    pub fn duplicate(&self) -> (s: Shape)
        requires
            shape_wf(*self),
        ensures
            shape_wf(s),
            shape_eqv(s, *self),
    {
        match self {
            Shape::Sphere(x) => Shape::Sphere(*x),
            Shape::Plane(x) => Shape::Plane(*x),
            Shape::Triangle(x) => Shape::Triangle(*x),
            Shape::TriangleMesh(m) => Shape::TriangleMesh(
                TriangleMesh { triangles: copy_triangles(&m.triangles) },
            ),
            Shape::Parallelepiped(p) => Shape::Parallelepiped(
                Parallelepiped { triangles: copy_triangles(&p.triangles) },
            ),
        }
    }
}

impl Scene {
    /// Builds the acceleration tree over copies of the scene's shapes;
    /// `BVHNode::from_shapes` carries the construction contract.
    pub fn bvh(&self, rng: &mut rand::rngs::SmallRng) -> (n: BVHNode)
        requires
            scene_wf(*self),
            self.hittables@.len() >= 1,
        ensures
            bvh_wf(n),
            bvh_items(n).len() == self.hittables@.len(),
            exists|dup: Seq<Shape>|
                #[trigger] dup.len() == self.hittables@.len() && (forall|i: int|
                    0 <= i < dup.len() ==> shape_eqv(#[trigger] dup[i], self.hittables@[i]))
                    && bvh_items(n).to_multiset() == dup.to_multiset(),
    {
        broadcast use vstd::seq_lib::group_to_multiset_ensures;

        let mut shapes: Vec<Shape> = Vec::new();
        let mut i: usize = 0;
        while i < self.hittables.len()
            invariant
                i <= self.hittables@.len(),
                scene_wf(*self),
                shapes@.len() == i,
                shapes_wf(shapes@),
                forall|k: int|
                    0 <= k < shapes@.len() ==> shape_eqv(#[trigger] shapes@[k], self.hittables@[k]),
            decreases self.hittables@.len() - i,
        {
            let s: Shape = self.hittables[i].duplicate();
            shapes.push(s);
            proof {
                assert forall|k: int| 0 <= k < shapes@.len() implies shape_wf(
                    #[trigger] shapes@[k],
                ) by {}
                assert forall|k: int| 0 <= k < shapes@.len() implies shape_eqv(
                    #[trigger] shapes@[k],
                    self.hittables@[k],
                ) by {}
            }
            i = i + 1;
        }
        let ghost built = shapes@;
        let n: BVHNode = BVHNode::from_shapes(rng, shapes);
        proof {
            assert(built.len() == self.hittables@.len() && (forall|i: int|
                0 <= i < built.len() ==> shape_eqv(#[trigger] built[i], self.hittables@[i]))
                && bvh_items(n).to_multiset() == built.to_multiset());
        }
        n
    }
}

/// Scales a world coordinate by a unit-interval random draw:
/// `0 <= r <= c` and `r == c * u` in fixed point.
fn scale_unit(c: i64, u: i64) -> (r: i64)
    requires
        0 <= u <= SCALE,
        0 <= c <= WORLD_MAX,
    ensures
        r as int == mul_fx(c as int, u as int),
        0 <= r <= c,
{
    proof {
        fx::lemma_mul_fx_bound(c as int, u as int, c as int, SCALE as int);
        fx::lemma_mul_fx_nonneg(c as int, u as int);
        vstd::arithmetic::div_mod::lemma_div_multiples_vanish(c as int, SCALE as int);
        assert((c as int) * (SCALE as int) == (SCALE as int) * (c as int)) by (nonlinear_arith);
    }
    fx::fmul(c, u)
}

/// The fixed small test scene: a ground plane, a diffuse sphere, a
/// hollow glass sphere (a dielectric shell with negative inner radius)
/// and a metal sphere.
pub fn setup_small_scene(render_config: RenderConfig) -> (s: Scene)
    ensures
        scene_wf(s),
        s.render_config == render_config,
        s.hittables@.len() == 5,
        s.hittables@[0] == Shape::Plane(
            Plane {
                center: Point3 { x: 0i64, y: -32768i64, z: 0i64 },
                normal: Vec3 { x: 0i64, y: 65536i64, z: 0i64 },
                material: Material::Lambertian { albedo: Color { r: 6554, g: 13107, b: 32768 } },
            },
        ),
        s.hittables@[1] == Shape::Sphere(
            Sphere {
                center: Point3 { x: 0i64, y: 0i64, z: -65536i64 },
                radius: 32768,
                material: Material::Lambertian { albedo: Color { r: 6554, g: 13107, b: 32768 } },
            },
        ),
        s.hittables@[2] == Shape::Sphere(
            Sphere {
                center: Point3 { x: -65536i64, y: 0i64, z: -65536i64 },
                radius: 32768,
                material: Material::Dielectric { index_of_refraction: 98304 },
            },
        ),
        s.hittables@[3] == Shape::Sphere(
            Sphere {
                center: Point3 { x: -65536i64, y: 0i64, z: -65536i64 },
                radius: -29491i64,
                material: Material::Dielectric { index_of_refraction: 98304 },
            },
        ),
        s.hittables@[4] == Shape::Sphere(
            Sphere {
                center: Point3 { x: 65536i64, y: 0i64, z: -65536i64 },
                radius: 32768,
                material: Material::Metal {
                    albedo: Color { r: 6554, g: 13107, b: 32768 },
                    fuzz: 0,
                },
            },
        ),
{
    let albedo = Color::new(6554, 13107, 32768);
    let specs: Vec<ShapeSpec> = vec![
        ShapeSpec::Plane {
            center: Point3::new(0, -32768, 0),
            normal: Vec3::new(0, 65536, 0),
            material: Material::Lambertian { albedo },
        },
        ShapeSpec::Sphere {
            center: Point3::new(0, 0, -65536),
            radius: 32768,
            material: Material::Lambertian { albedo },
        },
        ShapeSpec::Sphere {
            center: Point3::new(-65536, 0, -65536),
            radius: 32768,
            material: Material::Dielectric { index_of_refraction: 98304 },
        },
        ShapeSpec::Sphere {
            center: Point3::new(-65536, 0, -65536),
            radius: -29491i64,
            material: Material::Dielectric { index_of_refraction: 98304 },
        },
        ShapeSpec::Sphere {
            center: Point3::new(65536, 0, -65536),
            radius: 32768,
            material: Material::Metal { albedo, fuzz: 0 },
        },
    ];
    proof {
        assert forall|i: int| 0 <= i < specs@.len() implies spec_wf(#[trigger] specs@[i]) by {}
    }
    let world: Vec<Shape> = specs_to_shapes(&specs);
    Scene { render_config, hittables: world }
}

/// One random diffuse sphere with its center in
/// `[-coord_max, coord_max)` per axis and its radius in
/// `(0, radius_max]`.
fn random_sphere(rng: &mut rand::rngs::SmallRng, coord_max: i64, radius_max: i64) -> (s: Sphere)
    requires
        0 < coord_max <= 33554432,
        0 < radius_max <= WORLD_MAX,
    ensures
        sphere_wf(s),
{
    let x: i64 = scale_unit(2 * coord_max, rand_unit(rng)) - coord_max;
    let y: i64 = scale_unit(2 * coord_max, rand_unit(rng)) - coord_max;
    let z: i64 = scale_unit(2 * coord_max, rand_unit(rng)) - coord_max;
    let mut radius: i64 = scale_unit(radius_max, rand_unit(rng));
    if radius < 1 {
        radius = 1;
    }
    Sphere {
        center: Point3::new(x, y, z),
        radius,
        material: Material::Lambertian { albedo: Color::new(6554, 13107, 32768) },
    }
}

/// A scene of `num_spheres` random diffuse spheres within twenty units
/// of the origin, radii up to one half unit.
pub fn setup_scene(rng: &mut rand::rngs::SmallRng, render_config: RenderConfig, num_spheres: u32) -> (s:
    Scene)
    ensures
        scene_wf(s),
        s.render_config == render_config,
        s.hittables@.len() == num_spheres,
{
    let mut world: Vec<Shape> = Vec::new();
    let mut i: u32 = 0;
    while i < num_spheres
        invariant
            i <= num_spheres,
            world@.len() == i,
            shapes_wf(world@),
        decreases num_spheres - i,
    {
        let sp: Sphere = random_sphere(rng, 1310720, 32768);
        world.push(Shape::Sphere(sp));
        proof {
            assert forall|k: int| 0 <= k < world@.len() implies shape_wf(#[trigger] world@[k]) by {}
        }
        i = i + 1;
    }
    Scene { render_config, hittables: world }
}

/// The classic large random scene: a huge ground sphere, a grid of
/// small spheres with randomly chosen materials (skipping those too
/// close to a reference point), and three feature spheres.
pub fn random_large_scene(rng: &mut rand::rngs::SmallRng) -> (s: Scene)
    ensures
        scene_wf(s),
        s.hittables@.len() >= 4,
{
    let mut world: Vec<Shape> = Vec::new();
    world.push(
        Shape::Sphere(
            Sphere {
                center: Point3::new(0, -65536000, -65536),
                radius: 65536000,
                material: Material::Lambertian { albedo: Color::new(32768, 32768, 32768) },
            },
        ),
    );
    let p: Point3 = Point3::new(262144, 13107, 0);
    let mut a: i64 = -11;
    while a < 11
        invariant
            -11 <= a <= 11,
            world@.len() >= 1,
            shapes_wf(world@),
            p@ == (V3 { x: 262144, y: 13107, z: 0 }),
        decreases 11 - a,
    {
        let mut b: i64 = -11;
        while b < 11
            invariant
                -11 <= a < 11,
                -11 <= b <= 11,
                world@.len() >= 1,
                shapes_wf(world@),
                p@ == (V3 { x: 262144, y: 13107, z: 0 }),
            decreases 11 - b,
        {
            let choose_mat: i64 = rand_unit(rng);
            let cx: i64 = a * SCALE + scale_unit(58982, rand_unit(rng));
            let cz: i64 = b * SCALE + scale_unit(58982, rand_unit(rng));
            let center: Point3 = Point3::new(cx, 13107, cz);
            let away: Vec3 = center.sub_p(p);
            proof {
                assert(v3_bounded(away@, 2097152));
                lemma_dot_bound(away@, away@, 2097152, 2097152);
                lemma_dot_self_nonneg(away@);
                assert(3 * (2097152int * 2097152int) / 65536int == 201326592int)
                    by (nonlinear_arith);
            }
            let dist2: i64 = away.length2();
            if dist2 > 53084 {
                let material: Material = if choose_mat < 52429 {
                    let c1 = Color::random(rng);
                    let c2 = Color::random(rng);
                    proof {
                        crate::color::lemma_hadamard_in_01(c1@, c2@);
                    }
                    Material::Lambertian { albedo: c1.hadamard(c2) }
                } else if choose_mat < 62259 {
                    let c = Color::random(rng);
                    let albedo = Color::new(
                        scale_unit(32768, c.r) + 32768,
                        scale_unit(32768, c.g) + 32768,
                        scale_unit(32768, c.b) + 32768,
                    );
                    let fuzz: i64 = scale_unit(32768, rand_unit(rng));
                    Material::Metal { albedo, fuzz }
                } else {
                    Material::Dielectric { index_of_refraction: 98304 }
                };
                world.push(Shape::Sphere(Sphere { center, radius: 13107, material }));
                proof {
                    assert forall|k: int| 0 <= k < world@.len() implies shape_wf(
                        #[trigger] world@[k],
                    ) by {}
                }
            }
            b = b + 1;
        }
        a = a + 1;
    }
    world.push(
        Shape::Sphere(
            Sphere {
                center: Point3::new(0, 65536, 0),
                radius: 65536,
                material: Material::Dielectric { index_of_refraction: 98304 },
            },
        ),
    );
    world.push(
        Shape::Sphere(
            Sphere {
                center: Point3::new(-262144, 65536, 0),
                radius: 65536,
                material: Material::Lambertian { albedo: Color::new(26214, 13107, 6554) },
            },
        ),
    );
    world.push(
        Shape::Sphere(
            Sphere {
                center: Point3::new(262144, 65536, 0),
                radius: 65536,
                material: Material::Metal { albedo: Color::new(45875, 39322, 32768), fuzz: 0 },
            },
        ),
    );
    proof {
        assert forall|k: int| 0 <= k < world@.len() implies shape_wf(#[trigger] world@[k]) by {}
    }
    let render_config = RenderConfig {
        image_width: 1200,
        image_height: 800,
        samples_per_pixel: 500,
        max_depth: 50,
    };
    Scene { render_config, hittables: world }
}

} // verus!
