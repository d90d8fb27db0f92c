//! Geometric primitives and their ray-intersection routines.
//!
//! Every `hit_by` is proved equal to a spec-level mirror of its
//! fixed-point arithmetic, so the contracts state exactly which ray
//! parameters are reported and which rays miss.

use vstd::prelude::*;
use crate::bounding_box::{BBox, BBoxV, bbox_wf, surrounding_fx};
use crate::fx;
use crate::fx::{SCALE, T_HUGE, mag, mul_fx, divc_fx, sqrt_fx, fits_i64};
use crate::material::{Material, mat_wf};
use crate::point3::Point3;
use crate::ray::{Ray, RayV, ray_wf, ray_at_fx, T_FAR, WORLD_MAX};
use crate::vec3::{
    V3,
    Vec3,
    add3,
    sub3,
    neg3,
    div3,
    scale3,
    clamp3,
    cross_fx,
    dot_fx,
    length2_fx,
    normalize_fx,
    v3_bounded,
    v3_fits,
    lemma_clamp3,
    lemma_dot_bound,
    lemma_dot_neg,
    lemma_dot_self_nonneg,
    lemma_scale3_bound,
};

verus! {

/// Spec model of a successful intersection.
pub ghost struct HitV {
    pub point: V3,
    pub normal: V3,
    pub t: int,
    pub front_face: bool,
    pub material: Material,
}

/// The transient result of a successful intersection: hit point,
/// sign-corrected normal, ray parameter, orientation flag, and the
/// material at the hit.
pub struct HitRecord {
    pub point: Point3,
    pub normal: Vec3,
    pub t: i64,
    pub front_face: bool,
    pub material: Material,
}

impl View for HitRecord {
    type V = HitV;

    open spec fn view(&self) -> HitV {
        HitV {
            point: self.point@,
            normal: self.normal@,
            t: self.t as int,
            front_face: self.front_face,
            material: self.material,
        }
    }
}

/// Every reported hit has a near-unit normal, a ray parameter within
/// the far bound, and a well-formed material.
pub open spec fn hit_wf(h: HitV) -> bool {
    v3_bounded(h.normal, 2 * (SCALE as int)) && mag(h.t) <= T_FAR as int && mat_wf(h.material)
}

pub open spec fn opt_hit(o: Option<HitRecord>) -> Option<HitV> {
    match o {
        Option::Some(h) => Option::Some(h@),
        Option::None => Option::None,
    }
}

pub open spec fn hit_opt_wf(o: Option<HitV>) -> bool {
    match o {
        Option::Some(h) => hit_wf(h),
        Option::None => true,
    }
}

/// Builds the record, flipping the outward normal so that it always
/// opposes the incoming ray.
pub open spec fn hit_create_fx(ray: RayV, point: V3, outward: V3, t: int, material: Material) -> HitV {
    let ff = dot_fx(ray.dir, outward) < 0;
    HitV {
        point,
        normal: if ff {
            outward
        } else {
            neg3(outward)
        },
        t,
        front_face: ff,
        material,
    }
}

/// The sign-corrected normal never points along the ray: its dot
/// product with the ray direction is nonpositive.
pub proof fn lemma_hit_normal_opposes(ray: RayV, point: V3, outward: V3, t: int, material: Material)
    ensures
        dot_fx(ray.dir, hit_create_fx(ray, point, outward, t, material).normal) <= 0,
{
    if !(dot_fx(ray.dir, outward) < 0) {
        lemma_dot_neg(ray.dir, outward);
    }
}

impl HitRecord {
    pub fn create(ray: &Ray, point: Point3, outward_normal: Vec3, t: i64, material: Material) -> (r:
        HitRecord)
        requires
            ray_wf(ray@),
            v3_bounded(outward_normal@, T_HUGE as int),
        ensures
            r@ == hit_create_fx(ray@, point@, outward_normal@, t as int, material),
    {
        proof {
            lemma_dot_bound(ray@.dir, outward_normal@, WORLD_MAX as int, T_HUGE as int);
            assert(3 * ((WORLD_MAX as int) * (T_HUGE as int)) / (SCALE as int)
                <= 0x1000000000000000000int) by (nonlinear_arith);
        }
        let front_face: bool = ray.dir.dot(outward_normal) < 0;
        let normal: Vec3 = if front_face {
            outward_normal
        } else {
            outward_normal.neg()
        };
        HitRecord { point, t, normal, front_face, material }
    }
}

/// Root selection for `a t^2 + 2 half_b t + c = 0`: no root when the
/// discriminant is negative (or `a` is not positive); otherwise the
/// smaller root if it lies strictly inside `(t_min, t_max)`, else the
/// larger root under the same constraint, else nothing.
pub open spec fn solve_quadratic_fx(a: int, half_b: int, c: int, t_min: int, t_max: int) -> Option<
    int,
> {
    if a <= 0 {
        Option::None
    } else {
        let disc = mul_fx(half_b, half_b) - mul_fx(a, c);
        if disc < 0 {
            Option::None
        } else {
            let s = sqrt_fx(disc);
            let t1 = divc_fx(-half_b - s, a);
            if t_min < t1 && t1 < t_max {
                Option::Some(t1)
            } else {
                let t2 = divc_fx(-half_b + s, a);
                if t_min < t2 && t2 < t_max {
                    Option::Some(t2)
                } else {
                    Option::None
                }
            }
        }
    }
}

pub open spec fn opt_int(o: Option<i64>) -> Option<int> {
    match o {
        Option::Some(t) => Option::Some(t as int),
        Option::None => Option::None,
    }
}

/// Numerically careful quadratic root finding for sphere intersection.
pub fn solve_quadratic(a: i64, half_b: i64, c: i64, t_min: i64, t_max: i64) -> (res: Option<i64>)
    requires
        mag(half_b as int) <= 0x4000000000000000,
        fits_i64(mul_fx(half_b as int, half_b as int)),
        fits_i64(mul_fx(a as int, c as int)),
        fits_i64(mul_fx(half_b as int, half_b as int) - mul_fx(a as int, c as int)),
    ensures
        opt_int(res) == solve_quadratic_fx(a as int, half_b as int, c as int, t_min as int, t_max as int),
        match res {
            Option::Some(t) => t_min < t < t_max,
            Option::None => true,
        },
{
    if a <= 0 {
        return Option::None;
    }
    let discr: i64 = fx::fmul(half_b, half_b) - fx::fmul(a, c);
    if discr < 0 {
        return Option::None;
    }
    let sqrt_discr: i64 = fx::fsqrt(discr);
    proof {
        assert((sqrt_discr as int) * (sqrt_discr as int) < 1099511627776int * 1099511627776int)
            by {
            assert((sqrt_discr as int) * (sqrt_discr as int) <= (discr as int) * (SCALE as int));
            assert((discr as int) * (SCALE as int) < 1099511627776int * 1099511627776int)
                by (nonlinear_arith)
                requires
                    discr as int <= 0x7fffffffffffffffint,
            ;
        }
        fx::lemma_sq_le(sqrt_discr as int, 1099511627775);
    }
    let t1: i64 = fx::fdivc(-half_b - sqrt_discr, a);
    if t_min < t1 && t1 < t_max {
        return Option::Some(t1);
    }
    let t2: i64 = fx::fdivc(-half_b + sqrt_discr, a);
    if t_min < t2 && t2 < t_max {
        return Option::Some(t2);
    }
    Option::None
}

/// A sphere: a center, a signed radius (negative flips the outward
/// normal inward, making hollow shells possible), and a material.
#[derive(Clone, Copy, Debug)]
pub struct Sphere {
    pub center: Point3,
    pub radius: i64,
    pub material: Material,
}

pub open spec fn sphere_wf(s: Sphere) -> bool {
    v3_bounded(s.center@, WORLD_MAX as int) && 1 <= mag(s.radius as int) <= WORLD_MAX as int
        && mat_wf(s.material)
}

/// Mirror of sphere intersection: quadratic from
/// `|orig + t dir - center|^2 = radius^2`, then root selection, then
/// the record with outward normal `(point - center) / radius`. A
/// degenerate normal is clamped into the near-unit bound rather than
/// rejected, so the hit verdict depends on the roots alone.
pub open spec fn sphere_hit_fx(s: Sphere, r: RayV, t_min: int, t_max: int) -> Option<HitV> {
    let oc = sub3(r.orig, s.center@);
    let a = dot_fx(r.dir, r.dir);
    let half_b = dot_fx(r.dir, oc);
    let c = dot_fx(oc, oc) - mul_fx(s.radius as int, s.radius as int);
    match solve_quadratic_fx(a, half_b, c, t_min, t_max) {
        Option::None => Option::None,
        Option::Some(t) => {
            let point = ray_at_fx(r, t);
            let outward = clamp3(div3(sub3(point, s.center@), s.radius as int), 2 * (SCALE as int));
            Option::Some(hit_create_fx(r, point, outward, t, s.material))
        },
    }
}

impl Sphere {
    pub fn hit_by(&self, ray: &Ray, t_min: i64, t_max: i64) -> (res: Option<HitRecord>)
        requires
            sphere_wf(*self),
            ray_wf(ray@),
            -T_FAR <= t_min,
            t_max <= T_FAR,
        ensures
            opt_hit(res) == sphere_hit_fx(*self, ray@, t_min as int, t_max as int),
            hit_opt_wf(opt_hit(res)),
    {
        let oc: Vec3 = ray.orig.sub_p(self.center);
        proof {
            assert(v3_bounded(oc@, 134217728));
            lemma_dot_bound(ray@.dir, ray@.dir, WORLD_MAX as int, WORLD_MAX as int);
            lemma_dot_bound(ray@.dir, oc@, WORLD_MAX as int, 134217728);
            lemma_dot_bound(oc@, oc@, 134217728, 134217728);
            fx::lemma_mul_fx_bound(self.radius as int, self.radius as int, WORLD_MAX as int, WORLD_MAX as int);
            assert(3 * (67108864int * 67108864int) / 65536int == 206158430208int)
                by (nonlinear_arith);
            assert(3 * (67108864int * 134217728int) / 65536int == 412316860416int)
                by (nonlinear_arith);
            assert(3 * (134217728int * 134217728int) / 65536int == 824633720832int)
                by (nonlinear_arith);
            assert((67108864int * 67108864int) / 65536int == 68719476736int) by (nonlinear_arith);
        }
        let a: i64 = ray.dir.dot(ray.dir);
        let half_b: i64 = ray.dir.dot(oc);
        let c: i64 = oc.dot(oc) - fx::fmul(self.radius, self.radius);
        proof {
            fx::lemma_mul_fx_bound(half_b as int, half_b as int, 412316860416, 412316860416);
            fx::lemma_mul_fx_bound(a as int, c as int, 206158430208, 893353197568);
            assert((412316860416int * 412316860416int) / 65536int <= 0x2400000000000000int)
                by (nonlinear_arith);
            assert((206158430208int * 893353197568int) / 65536int <= 0x2700000000000000int)
                by (nonlinear_arith);
        }
        let t_opt: Option<i64> = solve_quadratic(a, half_b, c, t_min, t_max);
        match t_opt {
            Option::None => Option::None,
            Option::Some(t) => {
                let point: Point3 = ray.at(t);
                proof {
                    lemma_scale3_bound(ray@.dir, t as int, WORLD_MAX as int, T_FAR as int);
                    assert((67108864int * 1099511627776int) / 65536int == 1125899906842624int)
                        by (nonlinear_arith);
                    assert(v3_bounded(point@, 1125899906842624int + 67108864int));
                }
                let ov: Vec3 = point.sub_p(self.center);
                let outward: Vec3 = ov.div(self.radius).clamp_box(2 * SCALE);
                Option::Some(HitRecord::create(ray, point, outward, t, self.material))
            },
        }
    }

    /// The cube of half-width `|radius|` centered at the center.
    pub fn bounding_box(&self) -> (b: BBox)
        requires
            sphere_wf(*self),
        ensures
            b@ == sphere_bbox_fx(*self),
            bbox_wf(b@),
    {
        let abs_radius: i64 = fx::fabs(self.radius);
        let rv = Vec3 { x: abs_radius, y: abs_radius, z: abs_radius };
        BBox { min: self.center.sub_v(rv), max: self.center.add_v(rv) }
    }
}

pub open spec fn sphere_bbox_fx(s: Sphere) -> BBoxV {
    let r = mag(s.radius as int);
    BBoxV {
        min: sub3(s.center@, V3 { x: r, y: r, z: r }),
        max: add3(s.center@, V3 { x: r, y: r, z: r }),
    }
}

/// An infinite plane through `center` with the given normal.
#[derive(Clone, Copy, Debug)]
pub struct Plane {
    pub center: Point3,
    pub normal: Vec3,
    pub material: Material,
}

pub open spec fn plane_wf(p: Plane) -> bool {
    v3_bounded(p.center@, WORLD_MAX as int) && v3_bounded(p.normal@, 2 * (SCALE as int)) && mat_wf(
        p.material,
    )
}

/// Mirror of plane intersection: a ray whose direction is orthogonal to
/// the normal (to fixed-point precision) misses; otherwise the single
/// linear solution is range-checked.
pub open spec fn plane_hit_fx(p: Plane, r: RayV, t_min: int, t_max: int) -> Option<HitV> {
    let dir_dot_normal = dot_fx(r.dir, p.normal@);
    if dir_dot_normal == 0 {
        Option::None
    } else {
        let t = divc_fx(dot_fx(sub3(p.center@, r.orig), p.normal@), dir_dot_normal);
        if t_min < t && t < t_max {
            Option::Some(hit_create_fx(r, ray_at_fx(r, t), p.normal@, t, p.material))
        } else {
            Option::None
        }
    }
}

impl Plane {
    pub fn hit_by(&self, ray: &Ray, t_min: i64, t_max: i64) -> (res: Option<HitRecord>)
        requires
            plane_wf(*self),
            ray_wf(ray@),
            -T_FAR <= t_min,
            t_max <= T_FAR,
        ensures
            opt_hit(res) == plane_hit_fx(*self, ray@, t_min as int, t_max as int),
            hit_opt_wf(opt_hit(res)),
    {
        proof {
            lemma_dot_bound(ray@.dir, self.normal@, WORLD_MAX as int, WORLD_MAX as int);
            assert(3 * (67108864int * 67108864int) / 65536int == 206158430208int)
                by (nonlinear_arith);
        }
        let dir_dot_normal: i64 = ray.dir.dot(self.normal);
        if dir_dot_normal == 0 {
            return Option::None;
        }
        let otc: Vec3 = self.center.sub_p(ray.orig);
        proof {
            assert(v3_bounded(otc@, 134217728));
            lemma_dot_bound(otc@, self.normal@, 134217728, WORLD_MAX as int);
            assert(3 * (134217728int * 67108864int) / 65536int == 412316860416int)
                by (nonlinear_arith);
        }
        let num: i64 = otc.dot(self.normal);
        let t: i64 = fx::fdivc(num, dir_dot_normal);
        if t_min < t && t < t_max {
            let point: Point3 = ray.at(t);
            Option::Some(HitRecord::create(ray, point, self.normal, t, self.material))
        } else {
            Option::None
        }
    }

    /// Planes are unbounded: the box spans the whole representable
    /// range on every axis.
    pub fn bounding_box(&self) -> (b: BBox)
        ensures
            b@ == plane_bbox_fx(*self),
            bbox_wf(b@),
    {
        BBox {
            min: Point3 { x: -T_HUGE, y: -T_HUGE, z: -T_HUGE },
            max: Point3 { x: T_HUGE, y: T_HUGE, z: T_HUGE },
        }
    }
}

pub open spec fn plane_bbox_fx(p: Plane) -> BBoxV {
    BBoxV {
        min: V3 { x: -(T_HUGE as int), y: -(T_HUGE as int), z: -(T_HUGE as int) },
        max: V3 { x: T_HUGE as int, y: T_HUGE as int, z: T_HUGE as int },
    }
}

/// Bound on triangle vertices, tighter than the world bound so that the
/// squared length of a cross product of edges still fits.
pub const TRI_MAX: i64 = 33554432;

/// A triangle given by its three vertices.
#[derive(Clone, Copy, Debug)]
pub struct Triangle {
    pub v0: Point3,
    pub v1: Point3,
    pub v2: Point3,
    pub material: Material,
}

pub open spec fn tri_wf(t: Triangle) -> bool {
    v3_bounded(t.v0@, TRI_MAX as int) && v3_bounded(t.v1@, TRI_MAX as int) && v3_bounded(
        t.v2@,
        TRI_MAX as int,
    ) && mat_wf(t.material)
}

/// Mirror of the Moeller-Trumbore test: a zero determinant (a degenerate
/// or edge-parallel configuration) misses; the barycentric coordinates
/// must satisfy `u in [0, 1]`, `v in [0, 1]`, `u + v <= 1`; the normal
/// is the normalized face normal `edge1 x edge2`. A sliver triangle
/// whose face cross product rounds to the zero vector has no usable
/// normal and reports no hit.
pub open spec fn triangle_hit_fx(tr: Triangle, r: RayV, t_min: int, t_max: int) -> Option<HitV> {
    let edge1 = sub3(tr.v1@, tr.v0@);
    let edge2 = sub3(tr.v2@, tr.v0@);
    let h = cross_fx(r.dir, edge2);
    let a = dot_fx(edge1, h);
    if a == 0 {
        Option::None
    } else {
        let s = sub3(r.orig, tr.v0@);
        let u = divc_fx(dot_fx(s, h), a);
        if u < 0 || u > SCALE {
            Option::None
        } else {
            let q = cross_fx(s, edge1);
            let v = divc_fx(dot_fx(r.dir, q), a);
            if v < 0 || u + v > SCALE {
                Option::None
            } else {
                let t = divc_fx(dot_fx(edge2, q), a);
                if t < t_min || t > t_max {
                    Option::None
                } else {
                    let face = cross_fx(edge1, edge2);
                    if face == (V3 { x: 0, y: 0, z: 0 }) {
                        Option::None
                    } else {
                        let outward = clamp3(normalize_fx(face), 2 * (SCALE as int));
                        Option::Some(hit_create_fx(r, ray_at_fx(r, t), outward, t, tr.material))
                    }
                }
            }
        }
    }
}

pub open spec fn triangle_bbox_fx(tr: Triangle) -> BBoxV {
    BBoxV {
        min: V3 {
            x: fx::min_i(fx::min_i(tr.v0@.x, tr.v1@.x), tr.v2@.x),
            y: fx::min_i(fx::min_i(tr.v0@.y, tr.v1@.y), tr.v2@.y),
            z: fx::min_i(fx::min_i(tr.v0@.z, tr.v1@.z), tr.v2@.z),
        },
        max: V3 {
            x: fx::max_i(fx::max_i(tr.v0@.x, tr.v1@.x), tr.v2@.x),
            y: fx::max_i(fx::max_i(tr.v0@.y, tr.v1@.y), tr.v2@.y),
            z: fx::max_i(fx::max_i(tr.v0@.z, tr.v1@.z), tr.v2@.z),
        },
    }
}

impl Triangle {
    pub fn hit_by(&self, ray: &Ray, t_min: i64, t_max: i64) -> (res: Option<HitRecord>)
        requires
            tri_wf(*self),
            ray_wf(ray@),
            -T_FAR <= t_min,
            t_max <= T_FAR,
        ensures
            opt_hit(res) == triangle_hit_fx(*self, ray@, t_min as int, t_max as int),
            hit_opt_wf(opt_hit(res)),
    {
        let edge1: Vec3 = self.v1.sub_p(self.v0);
        let edge2: Vec3 = self.v2.sub_p(self.v0);
        proof {
            assert(v3_bounded(edge1@, 67108864) && v3_bounded(edge2@, 67108864));
            crate::vec3::lemma_cross_bounds(ray@.dir, edge2@, 67108864, 67108864);
            assert((67108864int * 67108864int) / 65536int == 68719476736int) by (nonlinear_arith);
        }
        let h: Vec3 = ray.dir.cross(edge2);
        proof {
            assert(v3_bounded(h@, 137438953472));
            lemma_dot_bound(edge1@, h@, 67108864, 137438953472);
            assert(3 * (67108864int * 137438953472int) / 65536int <= 0x4000000000000000int)
                by (nonlinear_arith);
        }
        let a: i64 = edge1.dot(h);
        if a == 0 {
            return Option::None;
        }
        let s: Vec3 = ray.orig.sub_p(self.v0);
        proof {
            assert(v3_bounded(s@, 100663296));
            lemma_dot_bound(s@, h@, 100663296, 137438953472);
            assert(3 * (100663296int * 137438953472int) / 65536int <= 0x4000000000000000int)
                by (nonlinear_arith);
        }
        let u: i64 = fx::fdivc(s.dot(h), a);
        if u < 0 || u > SCALE {
            return Option::None;
        }
        proof {
            crate::vec3::lemma_cross_bounds(s@, edge1@, 100663296, 67108864);
            assert((100663296int * 67108864int) / 65536int == 103079215104int) by (nonlinear_arith);
            assert(v3_bounded(cross_fx(s@, edge1@), 206158430208));
        }
        let q: Vec3 = s.cross(edge1);
        proof {
            lemma_dot_bound(ray@.dir, q@, 67108864, 206158430208);
            lemma_dot_bound(edge2@, q@, 67108864, 206158430208);
            assert(3 * (67108864int * 206158430208int) / 65536int <= 0x4000000000000000int)
                by (nonlinear_arith);
        }
        let v: i64 = fx::fdivc(ray.dir.dot(q), a);
        if v < 0 || u + v > SCALE {
            return Option::None;
        }
        let t: i64 = fx::fdivc(edge2.dot(q), a);
        if t < t_min || t > t_max {
            return Option::None;
        }
        proof {
            crate::vec3::lemma_cross_bounds(edge1@, edge2@, 67108864, 67108864);
            assert(v3_bounded(cross_fx(edge1@, edge2@), 137438953472));
            lemma_dot_bound(cross_fx(edge1@, edge2@), cross_fx(edge1@, edge2@), 137438953472, 137438953472);
            assert(3 * (137438953472int * 137438953472int) / 65536int <= 0x4000000000000000int)
                by (nonlinear_arith);
        }
        let face: Vec3 = edge1.cross(edge2);
        if face.x == 0 && face.y == 0 && face.z == 0 {
            return Option::None;
        }
        let outward: Vec3 = face.normalize().clamp_box(2 * SCALE);
        let point: Point3 = ray.at(t);
        Option::Some(HitRecord::create(ray, point, outward, t, self.material))
    }

    /// Componentwise min/max of the three vertices.
    pub fn bounding_box(&self) -> (b: BBox)
        requires
            tri_wf(*self),
        ensures
            b@ == triangle_bbox_fx(*self),
            bbox_wf(b@),
    {
        let min_x: i64 = fx::fmin(fx::fmin(self.v0.x, self.v1.x), self.v2.x);
        let min_y: i64 = fx::fmin(fx::fmin(self.v0.y, self.v1.y), self.v2.y);
        let min_z: i64 = fx::fmin(fx::fmin(self.v0.z, self.v1.z), self.v2.z);
        let max_x: i64 = fx::fmax(fx::fmax(self.v0.x, self.v1.x), self.v2.x);
        let max_y: i64 = fx::fmax(fx::fmax(self.v0.y, self.v1.y), self.v2.y);
        let max_z: i64 = fx::fmax(fx::fmax(self.v0.z, self.v1.z), self.v2.z);
        BBox {
            min: Point3 { x: min_x, y: min_y, z: min_z },
            max: Point3 { x: max_x, y: max_y, z: max_z },
        }
    }
}

/// Closest-hit scan over a triangle sequence, each member tested with
/// the full range and the strictly closest hit kept.
pub open spec fn tri_scan_fx(
    ts: Seq<Triangle>,
    r: RayV,
    t_min: int,
    t_max: int,
    best: Option<HitV>,
    closest: int,
) -> Option<HitV>
    decreases ts.len(),
{
    if ts.len() == 0 {
        best
    } else {
        match triangle_hit_fx(ts[0], r, t_min, t_max) {
            Option::Some(h) => if closest > h.t {
                tri_scan_fx(ts.drop_first(), r, t_min, t_max, Option::Some(h), h.t)
            } else {
                tri_scan_fx(ts.drop_first(), r, t_min, t_max, best, closest)
            },
            Option::None => tri_scan_fx(ts.drop_first(), r, t_min, t_max, best, closest),
        }
    }
}

pub open spec fn tri_list_hit_fx(ts: Seq<Triangle>, r: RayV, t_min: int, t_max: int) -> Option<
    HitV,
> {
    tri_scan_fx(ts, r, t_min, t_max, Option::None, t_max)
}

/// Exhaustive closest-hit test over a list of triangles.
pub fn hit_triangles(triangles: &Vec<Triangle>, ray: &Ray, t_min: i64, t_max: i64) -> (res: Option<
    HitRecord,
>)
    requires
        forall|i: int| 0 <= i < triangles@.len() ==> tri_wf(#[trigger] triangles@[i]),
        ray_wf(ray@),
        -T_FAR <= t_min,
        t_max <= T_FAR,
    ensures
        opt_hit(res) == tri_list_hit_fx(triangles@, ray@, t_min as int, t_max as int),
        hit_opt_wf(opt_hit(res)),
{
    let mut closest_t: i64 = t_max;
    let mut best: Option<HitRecord> = Option::None;
    let mut i: usize = 0;
    proof {
        assert(triangles@.skip(0) =~= triangles@);
    }
    while i < triangles.len()
        invariant
            i <= triangles@.len(),
            forall|j: int| 0 <= j < triangles@.len() ==> tri_wf(#[trigger] triangles@[j]),
            ray_wf(ray@),
            -T_FAR <= t_min,
            t_max <= T_FAR,
            hit_opt_wf(opt_hit(best)),
            tri_scan_fx(
                triangles@.skip(i as int),
                ray@,
                t_min as int,
                t_max as int,
                opt_hit(best),
                closest_t as int,
            ) == tri_list_hit_fx(triangles@, ray@, t_min as int, t_max as int),
        decreases triangles@.len() - i,
    {
        proof {
            assert(triangles@.skip(i as int)[0] == triangles@[i as int]);
            assert(triangles@.skip(i as int).drop_first() =~= triangles@.skip(i as int + 1));
        }
        let rec: Option<HitRecord> = triangles[i].hit_by(ray, t_min, t_max);
        match rec {
            Option::Some(r) => {
                if closest_t > r.t {
                    closest_t = r.t;
                    best = Option::Some(r);
                }
            },
            Option::None => {},
        }
        i = i + 1;
    }
    best
}

/// A negative discriminant means the sphere is missed: no hit is
/// reported.
pub proof fn lemma_sphere_negative_discriminant_misses(s: Sphere, r: RayV, t_min: int, t_max: int)
    requires
        ({
            let oc = sub3(r.orig, s.center@);
            let a = dot_fx(r.dir, r.dir);
            let half_b = dot_fx(r.dir, oc);
            let c = dot_fx(oc, oc) - mul_fx(s.radius as int, s.radius as int);
            mul_fx(half_b, half_b) - mul_fx(a, c) < 0
        }),
    ensures
        sphere_hit_fx(s, r, t_min, t_max) is None,
{
}

/// A ray orthogonal to the plane's normal (to fixed-point precision)
/// never hits the plane.
pub proof fn lemma_plane_parallel_misses(p: Plane, r: RayV, t_min: int, t_max: int)
    requires
        dot_fx(r.dir, p.normal@) == 0,
    ensures
        plane_hit_fx(p, r, t_min, t_max) is None,
{
}

/// A ray whose barycentric coordinate `u` falls outside `[0, 1]`, or
/// whose determinant vanishes, misses the triangle.
pub proof fn lemma_triangle_outside_misses(tr: Triangle, r: RayV, t_min: int, t_max: int)
    requires
        ({
            let edge1 = sub3(tr.v1@, tr.v0@);
            let edge2 = sub3(tr.v2@, tr.v0@);
            let h = cross_fx(r.dir, edge2);
            let a = dot_fx(edge1, h);
            a == 0 || ({
                let u = divc_fx(dot_fx(sub3(r.orig, tr.v0@), h), a);
                u < 0 || u > SCALE
            })
        }),
    ensures
        triangle_hit_fx(tr, r, t_min, t_max) is None,
{
}

/// Any hit a triangle scan reports lies within the queried range,
/// provided the running best does.
pub proof fn lemma_tri_scan_t_range(
    ts: Seq<Triangle>,
    r: RayV,
    t_min: int,
    t_max: int,
    best: Option<HitV>,
    closest: int,
)
    requires
        match best {
            Option::Some(b) => t_min <= b.t <= t_max,
            Option::None => true,
        },
    ensures
        match tri_scan_fx(ts, r, t_min, t_max, best, closest) {
            Option::Some(h) => t_min <= h.t <= t_max,
            Option::None => true,
        },
    decreases ts.len(),
{
    if ts.len() > 0 {
        match triangle_hit_fx(ts[0], r, t_min, t_max) {
            Option::Some(h) => {
                if closest > h.t {
                    lemma_tri_scan_t_range(
                        ts.drop_first(),
                        r,
                        t_min,
                        t_max,
                        Option::Some(h),
                        h.t,
                    );
                } else {
                    lemma_tri_scan_t_range(ts.drop_first(), r, t_min, t_max, best, closest);
                }
            },
            Option::None => {
                lemma_tri_scan_t_range(ts.drop_first(), r, t_min, t_max, best, closest);
            },
        }
    }
}

/// Root selection is monotone in the upper range bound: a root found
/// under a tight bound is only replaced by a smaller one when the bound
/// widens.
pub proof fn lemma_solve_quadratic_widens(
    a: int,
    half_b: int,
    c: int,
    t_min: int,
    tm: int,
    t_max: int,
)
    requires
        tm <= t_max,
        solve_quadratic_fx(a, half_b, c, t_min, tm) is Some,
    ensures
        match (
            solve_quadratic_fx(a, half_b, c, t_min, t_max),
            solve_quadratic_fx(a, half_b, c, t_min, tm),
        ) {
            (Option::Some(tw), Option::Some(tn)) => tw <= tn,
            _ => false,
        },
{
    let disc = mul_fx(half_b, half_b) - mul_fx(a, c);
    fx::lemma_sqrt_fx_props(disc);
    let s = sqrt_fx(disc);
    fx::lemma_divc_monotone(-half_b - s, -half_b + s, a);
}

/// A sphere hit found under a tight upper bound is matched under a
/// wider one, at the same or a smaller parameter.
pub proof fn lemma_sphere_hit_widens(sp: Sphere, r: RayV, t_min: int, tm: int, t_max: int)
    requires
        tm <= t_max,
        sphere_hit_fx(sp, r, t_min, tm) is Some,
    ensures
        match (sphere_hit_fx(sp, r, t_min, t_max), sphere_hit_fx(sp, r, t_min, tm)) {
            (Option::Some(hw), Option::Some(hn)) => hw.t <= hn.t,
            _ => false,
        },
{
    let oc = sub3(r.orig, sp.center@);
    let a = dot_fx(r.dir, r.dir);
    let half_b = dot_fx(r.dir, oc);
    let c = dot_fx(oc, oc) - mul_fx(sp.radius as int, sp.radius as int);
    lemma_solve_quadratic_widens(a, half_b, c, t_min, tm, t_max);
}

/// A plane hit found under a tight upper bound persists unchanged under
/// a wider one.
pub proof fn lemma_plane_hit_widens(p: Plane, r: RayV, t_min: int, tm: int, t_max: int)
    requires
        tm <= t_max,
        plane_hit_fx(p, r, t_min, tm) is Some,
    ensures
        plane_hit_fx(p, r, t_min, t_max) == plane_hit_fx(p, r, t_min, tm),
{
}

/// A triangle hit found under a tight upper bound persists unchanged
/// under a wider one.
pub proof fn lemma_triangle_hit_widens(tr: Triangle, r: RayV, t_min: int, tm: int, t_max: int)
    requires
        tm <= t_max,
        triangle_hit_fx(tr, r, t_min, tm) is Some,
    ensures
        triangle_hit_fx(tr, r, t_min, t_max) == triangle_hit_fx(tr, r, t_min, tm),
{
}

/// Any hit a shape reports lies within the queried range.
pub proof fn lemma_shape_hit_t_range(s: Shape, r: RayV, t_min: int, t_max: int)
    ensures
        match shape_hit_fx(s, r, t_min, t_max) {
            Option::Some(h) => t_min <= h.t <= t_max,
            Option::None => true,
        },
{
    match s {
        Shape::Sphere(x) => {},
        Shape::Plane(x) => {},
        Shape::Triangle(x) => {},
        Shape::TriangleMesh(x) => {
            lemma_tri_scan_t_range(x.triangles@, r, t_min, t_max, Option::None, t_max);
        },
        Shape::Parallelepiped(x) => {
            lemma_tri_scan_t_range(x.triangles@, r, t_min, t_max, Option::None, t_max);
        },
    }
}

/// Every hit the triangle scan returns is either the best it started
/// from or the hit of some member, tested with the same range.
pub proof fn lemma_tri_scan_sound(
    ts: Seq<Triangle>,
    r: RayV,
    t_min: int,
    t_max: int,
    best: Option<HitV>,
    closest: int,
)
    ensures
        match tri_scan_fx(ts, r, t_min, t_max, best, closest) {
            Option::Some(h) => best == Option::Some(h) || exists|i: int|
                0 <= i < ts.len() && #[trigger] triangle_hit_fx(ts[i], r, t_min, t_max)
                    == Option::Some(h),
            Option::None => true,
        },
    decreases ts.len(),
{
    if ts.len() > 0 {
        match triangle_hit_fx(ts[0], r, t_min, t_max) {
            Option::Some(h0) => {
                if closest > h0.t {
                    lemma_tri_scan_sound(ts.drop_first(), r, t_min, t_max, Option::Some(h0), h0.t);
                } else {
                    lemma_tri_scan_sound(ts.drop_first(), r, t_min, t_max, best, closest);
                }
            },
            Option::None => {
                lemma_tri_scan_sound(ts.drop_first(), r, t_min, t_max, best, closest);
            },
        }
        match tri_scan_fx(ts, r, t_min, t_max, best, closest) {
            Option::Some(h) => {
                if best != Option::Some(h) {
                    if triangle_hit_fx(ts[0], r, t_min, t_max) == Option::Some(h) {
                        assert(triangle_hit_fx(ts[0], r, t_min, t_max) == Option::Some(h));
                    } else {
                        let j = choose|j: int|
                            0 <= j < ts.drop_first().len() && #[trigger] triangle_hit_fx(
                                ts.drop_first()[j],
                                r,
                                t_min,
                                t_max,
                            ) == Option::Some(h);
                        assert(ts.drop_first()[j] == ts[j + 1]);
                        assert(triangle_hit_fx(ts[j + 1], r, t_min, t_max) == Option::Some(h));
                    }
                }
            },
            Option::None => {},
        }
    }
}

/// A running best can only improve during a triangle scan.
pub proof fn lemma_tri_scan_improves(
    ts: Seq<Triangle>,
    r: RayV,
    t_min: int,
    t_max: int,
    best: Option<HitV>,
    closest: int,
)
    requires
        match best {
            Option::Some(b) => b.t <= closest,
            Option::None => true,
        },
    ensures
        match best {
            Option::Some(b) => match tri_scan_fx(ts, r, t_min, t_max, Option::Some(b), closest) {
                Option::Some(res) => res.t <= closest,
                Option::None => false,
            },
            Option::None => true,
        },
    decreases ts.len(),
{
    if ts.len() > 0 {
        match best {
            Option::Some(b) => {
                match triangle_hit_fx(ts[0], r, t_min, t_max) {
                    Option::Some(h) => {
                        if closest > h.t {
                            lemma_tri_scan_improves(
                                ts.drop_first(),
                                r,
                                t_min,
                                t_max,
                                Option::Some(h),
                                h.t,
                            );
                        } else {
                            lemma_tri_scan_improves(ts.drop_first(), r, t_min, t_max, best, closest);
                        }
                    },
                    Option::None => {
                        lemma_tri_scan_improves(ts.drop_first(), r, t_min, t_max, best, closest);
                    },
                }
            },
            Option::None => {},
        }
    }
}

/// If some member hits strictly below the running bound, the triangle
/// scan returns a hit at least that close.
pub proof fn lemma_tri_scan_complete(
    ts: Seq<Triangle>,
    r: RayV,
    t_min: int,
    t_max: int,
    best: Option<HitV>,
    closest: int,
    i: int,
)
    requires
        0 <= i < ts.len(),
        match best {
            Option::Some(b) => b.t <= closest,
            Option::None => true,
        },
        match triangle_hit_fx(ts[i], r, t_min, t_max) {
            Option::Some(h) => h.t < closest,
            Option::None => false,
        },
    ensures
        match (
            tri_scan_fx(ts, r, t_min, t_max, best, closest),
            triangle_hit_fx(ts[i], r, t_min, t_max),
        ) {
            (Option::Some(res), Option::Some(h)) => res.t <= h.t,
            _ => false,
        },
    decreases ts.len(),
{
    let h0 = triangle_hit_fx(ts[0], r, t_min, t_max);
    if i == 0 {
        match h0 {
            Option::Some(h) => {
                lemma_tri_scan_improves(ts.drop_first(), r, t_min, t_max, Option::Some(h), h.t);
            },
            Option::None => {},
        }
    } else {
        assert(ts.drop_first()[i - 1] == ts[i]);
        match h0 {
            Option::Some(h) => {
                if closest > h.t {
                    match triangle_hit_fx(ts[i], r, t_min, t_max) {
                        Option::Some(hh) => {
                            if hh.t < h.t {
                                lemma_tri_scan_complete(
                                    ts.drop_first(),
                                    r,
                                    t_min,
                                    t_max,
                                    Option::Some(h),
                                    h.t,
                                    i - 1,
                                );
                            } else {
                                lemma_tri_scan_improves(
                                    ts.drop_first(),
                                    r,
                                    t_min,
                                    t_max,
                                    Option::Some(h),
                                    h.t,
                                );
                            }
                        },
                        Option::None => {},
                    }
                } else {
                    lemma_tri_scan_complete(ts.drop_first(), r, t_min, t_max, best, closest, i - 1);
                }
            },
            Option::None => {
                lemma_tri_scan_complete(ts.drop_first(), r, t_min, t_max, best, closest, i - 1);
            },
        }
    }
}

/// A hit on a triangle list found under a tight upper bound is matched
/// under a wider one, at the same or a smaller parameter.
pub proof fn lemma_tri_list_hit_widens(
    ts: Seq<Triangle>,
    r: RayV,
    t_min: int,
    tm: int,
    t_max: int,
)
    requires
        tm <= t_max,
        tri_list_hit_fx(ts, r, t_min, tm) is Some,
    ensures
        match (tri_list_hit_fx(ts, r, t_min, t_max), tri_list_hit_fx(ts, r, t_min, tm)) {
            (Option::Some(hw), Option::Some(hn)) => hw.t <= hn.t,
            _ => false,
        },
{
    if tm == t_max {
    } else {
        match tri_list_hit_fx(ts, r, t_min, tm) {
            Option::Some(hn) => {
                lemma_tri_scan_sound(ts, r, t_min, tm, Option::None, tm);
                let i = choose|i: int|
                    0 <= i < ts.len() && #[trigger] triangle_hit_fx(ts[i], r, t_min, tm)
                        == Option::Some(hn);
                lemma_tri_scan_t_range(ts, r, t_min, tm, Option::None, tm);
                lemma_triangle_hit_widens(ts[i], r, t_min, tm, t_max);
                assert(hn.t <= tm < t_max);
                lemma_tri_scan_complete(ts, r, t_min, t_max, Option::None, t_max, i);
            },
            Option::None => {},
        }
    }
}

/// The box around a nonempty triangle list: a fold of `surrounding_box`
/// over the members' boxes.
pub open spec fn tri_fold_bbox(ts: Seq<Triangle>, acc: BBoxV) -> BBoxV
    decreases ts.len(),
{
    if ts.len() == 0 {
        acc
    } else {
        tri_fold_bbox(ts.drop_first(), surrounding_fx(acc, triangle_bbox_fx(ts[0])))
    }
}

pub open spec fn tri_list_bbox_fx(ts: Seq<Triangle>) -> BBoxV {
    tri_fold_bbox(ts.drop_first(), triangle_bbox_fx(ts[0]))
}

/// Fold of `surrounding_fx` keeps boxes within the saturation bound.
pub proof fn lemma_tri_fold_bbox_wf(ts: Seq<Triangle>, acc: BBoxV)
    requires
        bbox_wf(acc),
        forall|i: int| 0 <= i < ts.len() ==> tri_wf(#[trigger] ts[i]),
    ensures
        bbox_wf(tri_fold_bbox(ts, acc)),
    decreases ts.len(),
{
    if ts.len() > 0 {
        assert(tri_wf(ts[0]));
        lemma_tri_fold_bbox_wf(ts.drop_first(), surrounding_fx(acc, triangle_bbox_fx(ts[0])));
    }
}

/// Bounding box of a nonempty triangle list.
pub fn bounding_box_triangles(triangles: &Vec<Triangle>) -> (b: BBox)
    requires
        triangles@.len() >= 1,
        forall|i: int| 0 <= i < triangles@.len() ==> tri_wf(#[trigger] triangles@[i]),
    ensures
        b@ == tri_list_bbox_fx(triangles@),
        bbox_wf(b@),
{
    let first: Triangle = triangles[0];
    let mut acc: BBox = first.bounding_box();
    let mut i: usize = 1;
    proof {
        assert(triangles@.skip(1) =~= triangles@.drop_first());
    }
    while i < triangles.len()
        invariant
            1 <= i <= triangles@.len(),
            forall|j: int| 0 <= j < triangles@.len() ==> tri_wf(#[trigger] triangles@[j]),
            bbox_wf(acc@),
            tri_fold_bbox(triangles@.skip(i as int), acc@) == tri_list_bbox_fx(triangles@),
        decreases triangles@.len() - i,
    {
        proof {
            assert(triangles@.skip(i as int)[0] == triangles@[i as int]);
            assert(triangles@.skip(i as int).drop_first() =~= triangles@.skip(i as int + 1));
        }
        let tb: BBox = triangles[i].bounding_box();
        acc = BBox::surrounding_box(acc, tb);
        i = i + 1;
    }
    acc
}

/// A triangle mesh: a list of triangles scanned exhaustively.
#[derive(Clone, Debug)]
pub struct TriangleMesh {
    pub triangles: Vec<Triangle>,
}

pub open spec fn mesh_wf(m: TriangleMesh) -> bool {
    m.triangles@.len() >= 1 && forall|i: int|
        0 <= i < m.triangles@.len() ==> tri_wf(#[trigger] m.triangles@[i])
}

impl TriangleMesh {
    /// Builds the mesh from a vertex list and a flat index list, three
    /// indices per triangle; a trailing partial triple is ignored.
    pub fn new(vertices: &Vec<Point3>, vertices_index: &Vec<usize>, material: Material) -> (m:
        TriangleMesh)
        requires
            forall|i: int|
                0 <= i < vertices@.len() ==> v3_bounded(#[trigger] vertices@[i]@, TRI_MAX as int),
            forall|i: int|
                0 <= i < vertices_index@.len() ==> #[trigger] vertices_index@[i] < vertices@.len(),
            vertices_index@.len() >= 3,
            mat_wf(material),
        ensures
            mesh_wf(m),
            m.triangles@.len() == vertices_index@.len() as int / 3,
            forall|i: int|
                0 <= i < m.triangles@.len() ==> #[trigger] m.triangles@[i] == (Triangle {
                    v0: vertices@[vertices_index@[3 * i] as int],
                    v1: vertices@[vertices_index@[3 * i + 1] as int],
                    v2: vertices@[vertices_index@[3 * i + 2] as int],
                    material,
                }),
    {
        let n: usize = vertices_index.len() / 3;
        proof {
            vstd::arithmetic::div_mod::lemma_fundamental_div_mod(vertices_index@.len() as int, 3);
            assert(3 * (n as int) <= vertices_index@.len());
        }
        let mut triangles: Vec<Triangle> = Vec::new();
        let mut i: usize = 0;
        while i < n
            invariant
                i <= n,
                n == vertices_index@.len() as int / 3,
                3 * n <= vertices_index@.len(),
                vertices_index@.len() <= usize::MAX,
                forall|k: int|
                    0 <= k < vertices@.len() ==> v3_bounded(
                        #[trigger] vertices@[k]@,
                        TRI_MAX as int,
                    ),
                forall|k: int|
                    0 <= k < vertices_index@.len() ==> #[trigger] vertices_index@[k]
                        < vertices@.len(),
                mat_wf(material),
                triangles@.len() == i,
                forall|k: int|
                    0 <= k < i ==> #[trigger] triangles@[k] == (Triangle {
                        v0: vertices@[vertices_index@[3 * k] as int],
                        v1: vertices@[vertices_index@[3 * k + 1] as int],
                        v2: vertices@[vertices_index@[3 * k + 2] as int],
                        material,
                    }),
            decreases n - i,
        {
            proof {
                assert(3 * (i as int) < 3 * (n as int)) by (nonlinear_arith)
                    requires
                        i < n,
                ;
                assert(3 * (i as int) + 2 < vertices_index@.len());
            }
            let i0: usize = vertices_index[3 * i];
            let i1: usize = vertices_index[3 * i + 1];
            let i2: usize = vertices_index[3 * i + 2];
            let tri = Triangle {
                v0: vertices[i0],
                v1: vertices[i1],
                v2: vertices[i2],
                material,
            };
            triangles.push(tri);
            i = i + 1;
        }
        TriangleMesh { triangles }
    }

    pub fn hit_by(&self, ray: &Ray, t_min: i64, t_max: i64) -> (res: Option<HitRecord>)
        requires
            mesh_wf(*self),
            ray_wf(ray@),
            -T_FAR <= t_min,
            t_max <= T_FAR,
        ensures
            opt_hit(res) == tri_list_hit_fx(self.triangles@, ray@, t_min as int, t_max as int),
            hit_opt_wf(opt_hit(res)),
    {
        hit_triangles(&self.triangles, ray, t_min, t_max)
    }

    pub fn bounding_box(&self) -> (b: BBox)
        requires
            mesh_wf(*self),
        ensures
            b@ == tri_list_bbox_fx(self.triangles@),
            bbox_wf(b@),
    {
        bounding_box_triangles(&self.triangles)
    }
}

/// Bound on the four base points of a parallelepiped, small enough
/// that every derived corner stays a valid triangle vertex.
pub const PPD_MAX: i64 = 4194304;

/// The four derived corners of the parallelepiped spanned by `a` and
/// its three neighbors `b`, `c`, `d`.
pub open spec fn ppd_c1(a: V3, b: V3, c: V3, d: V3) -> V3 {
    add3(a, add3(sub3(d, a), sub3(c, a)))
}

pub open spec fn ppd_c2(a: V3, b: V3, c: V3, d: V3) -> V3 {
    add3(a, add3(sub3(c, a), sub3(b, a)))
}

pub open spec fn ppd_c3(a: V3, b: V3, c: V3, d: V3) -> V3 {
    add3(a, add3(sub3(d, a), sub3(b, a)))
}

pub open spec fn ppd_c4(a: V3, b: V3, c: V3, d: V3) -> V3 {
    add3(b, add3(sub3(ppd_c3(a, b, c, d), b), sub3(ppd_c2(a, b, c, d), b)))
}

/// The twelve face triangles, two per face, as vertex triples.
pub open spec fn ppd_tris(a: V3, b: V3, c: V3, d: V3) -> Seq<(V3, V3, V3)> {
    let v1 = ppd_c1(a, b, c, d);
    let v2 = ppd_c2(a, b, c, d);
    let v3 = ppd_c3(a, b, c, d);
    let v4 = ppd_c4(a, b, c, d);
    seq![
        (a, b, c),
        (a, d, b),
        (a, c, d),
        (d, c, v1),
        (c, b, v2),
        (b, d, v3),
        (d, v1, v4),
        (d, v4, v3),
        (c, v4, v1),
        (c, v2, v4),
        (b, v4, v2),
        (b, v3, v4),
    ]
}

/// A parallelepiped, held as its twelve boundary triangles and scanned
/// exhaustively.
#[derive(Clone, Debug)]
pub struct Parallelepiped {
    pub triangles: Vec<Triangle>,
}

pub open spec fn ppd_wf(p: Parallelepiped) -> bool {
    p.triangles@.len() >= 1 && forall|i: int|
        0 <= i < p.triangles@.len() ==> tri_wf(#[trigger] p.triangles@[i])
}

impl Parallelepiped {
    /// Builds the twelve face triangles of the parallelepiped with
    /// corner `a` adjacent to `b`, `c` and `d`.
    #[verifier::rlimit(100)]
    pub fn new(a: Point3, b: Point3, c: Point3, d: Point3, material: Material) -> (p:
        Parallelepiped)
        requires
            v3_bounded(a@, PPD_MAX as int),
            v3_bounded(b@, PPD_MAX as int),
            v3_bounded(c@, PPD_MAX as int),
            v3_bounded(d@, PPD_MAX as int),
            mat_wf(material),
        ensures
            ppd_wf(p),
            p.triangles@.len() == 12,
            forall|i: int|
                0 <= i < 12 ==> ((#[trigger] p.triangles@[i].v0@, p.triangles@[i].v1@,
                p.triangles@[i].v2@) == ppd_tris(a@, b@, c@, d@)[i] && p.triangles@[i].material
                    == material),
    {
        let v1: Point3 = a.add_v(d.sub_p(a).add(c.sub_p(a)));
        let v2: Point3 = a.add_v(c.sub_p(a).add(b.sub_p(a)));
        let v3: Point3 = a.add_v(d.sub_p(a).add(b.sub_p(a)));
        let v4: Point3 = b.add_v(v3.sub_p(b).add(v2.sub_p(b)));
        let mut triangles: Vec<Triangle> = Vec::new();
        triangles.push(Triangle { v0: a, v1: b, v2: c, material });
        triangles.push(Triangle { v0: a, v1: d, v2: b, material });
        triangles.push(Triangle { v0: a, v1: c, v2: d, material });
        triangles.push(Triangle { v0: d, v1: c, v2: v1, material });
        triangles.push(Triangle { v0: c, v1: b, v2: v2, material });
        triangles.push(Triangle { v0: b, v1: d, v2: v3, material });
        triangles.push(Triangle { v0: d, v1: v1, v2: v4, material });
        triangles.push(Triangle { v0: d, v1: v4, v2: v3, material });
        triangles.push(Triangle { v0: c, v1: v4, v2: v1, material });
        triangles.push(Triangle { v0: c, v1: v2, v2: v4, material });
        triangles.push(Triangle { v0: b, v1: v4, v2: v2, material });
        triangles.push(Triangle { v0: b, v1: v3, v2: v4, material });
        let p = Parallelepiped { triangles };
        proof {
            assert(v1@ == ppd_c1(a@, b@, c@, d@));
            assert(v2@ == ppd_c2(a@, b@, c@, d@));
            assert(v3@ == ppd_c3(a@, b@, c@, d@));
            assert(v4@ == ppd_c4(a@, b@, c@, d@));
            assert(v3_bounded(v1@, TRI_MAX as int));
            assert(v3_bounded(v2@, TRI_MAX as int));
            assert(v3_bounded(v3@, TRI_MAX as int));
            assert(v3_bounded(v4@, TRI_MAX as int));
            assert forall|i: int| 0 <= i < 12 implies ((#[trigger] p.triangles@[i].v0@,
            p.triangles@[i].v1@, p.triangles@[i].v2@) == ppd_tris(a@, b@, c@, d@)[i]
                && p.triangles@[i].material == material) by {
                assert(ppd_tris(a@, b@, c@, d@).len() == 12);
            }
            assert forall|i: int| 0 <= i < p.triangles@.len() implies tri_wf(
                #[trigger] p.triangles@[i],
            ) by {}
        }
        p
    }

    pub fn hit_by(&self, ray: &Ray, t_min: i64, t_max: i64) -> (res: Option<HitRecord>)
        requires
            ppd_wf(*self),
            ray_wf(ray@),
            -T_FAR <= t_min,
            t_max <= T_FAR,
        ensures
            opt_hit(res) == tri_list_hit_fx(self.triangles@, ray@, t_min as int, t_max as int),
            hit_opt_wf(opt_hit(res)),
    {
        hit_triangles(&self.triangles, ray, t_min, t_max)
    }

    pub fn bounding_box(&self) -> (b: BBox)
        requires
            ppd_wf(*self),
        ensures
            b@ == tri_list_bbox_fx(self.triangles@),
            bbox_wf(b@),
    {
        bounding_box_triangles(&self.triangles)
    }
}

/// The closed set of primitives, dispatched by a single match.
#[derive(Clone, Debug)]
pub enum Shape {
    Sphere(Sphere),
    Plane(Plane),
    Triangle(Triangle),
    TriangleMesh(TriangleMesh),
    Parallelepiped(Parallelepiped),
}

pub open spec fn shape_wf(s: Shape) -> bool {
    match s {
        Shape::Sphere(x) => sphere_wf(x),
        Shape::Plane(x) => plane_wf(x),
        Shape::Triangle(x) => tri_wf(x),
        Shape::TriangleMesh(x) => mesh_wf(x),
        Shape::Parallelepiped(x) => ppd_wf(x),
    }
}

/// Intersection of a ray with any primitive.
pub open spec fn shape_hit_fx(s: Shape, r: RayV, t_min: int, t_max: int) -> Option<HitV> {
    match s {
        Shape::Sphere(x) => sphere_hit_fx(x, r, t_min, t_max),
        Shape::Plane(x) => plane_hit_fx(x, r, t_min, t_max),
        Shape::Triangle(x) => triangle_hit_fx(x, r, t_min, t_max),
        Shape::TriangleMesh(x) => tri_list_hit_fx(x.triangles@, r, t_min, t_max),
        Shape::Parallelepiped(x) => tri_list_hit_fx(x.triangles@, r, t_min, t_max),
    }
}

pub open spec fn shape_bbox_fx(s: Shape) -> BBoxV {
    match s {
        Shape::Sphere(x) => sphere_bbox_fx(x),
        Shape::Plane(x) => plane_bbox_fx(x),
        Shape::Triangle(x) => triangle_bbox_fx(x),
        Shape::TriangleMesh(x) => tri_list_bbox_fx(x.triangles@),
        Shape::Parallelepiped(x) => tri_list_bbox_fx(x.triangles@),
    }
}

impl Shape {
    pub fn hit_by(&self, ray: &Ray, t_min: i64, t_max: i64) -> (res: Option<HitRecord>)
        requires
            shape_wf(*self),
            ray_wf(ray@),
            -T_FAR <= t_min,
            t_max <= T_FAR,
        ensures
            opt_hit(res) == shape_hit_fx(*self, ray@, t_min as int, t_max as int),
            hit_opt_wf(opt_hit(res)),
    {
        match self {
            Shape::Sphere(x) => x.hit_by(ray, t_min, t_max),
            Shape::Plane(x) => x.hit_by(ray, t_min, t_max),
            Shape::Triangle(x) => x.hit_by(ray, t_min, t_max),
            Shape::TriangleMesh(x) => x.hit_by(ray, t_min, t_max),
            Shape::Parallelepiped(x) => x.hit_by(ray, t_min, t_max),
        }
    }

    pub fn bounding_box(&self) -> (b: BBox)
        requires
            shape_wf(*self),
        ensures
            b@ == shape_bbox_fx(*self),
            bbox_wf(b@),
    {
        match self {
            Shape::Sphere(x) => x.bounding_box(),
            Shape::Plane(x) => x.bounding_box(),
            Shape::Triangle(x) => x.bounding_box(),
            Shape::TriangleMesh(x) => x.bounding_box(),
            Shape::Parallelepiped(x) => x.bounding_box(),
        }
    }
}

/// Closest-hit scan over a shape sequence: each member is tested with
/// the full range and the strictly closest hit is kept. This is the
/// acceleration-free baseline the tree traversal must agree with.
pub open spec fn shape_scan_fx(
    ss: Seq<Shape>,
    r: RayV,
    t_min: int,
    t_max: int,
    best: Option<HitV>,
    closest: int,
) -> Option<HitV>
    decreases ss.len(),
{
    if ss.len() == 0 {
        best
    } else {
        match shape_hit_fx(ss[0], r, t_min, t_max) {
            Option::Some(h) => if closest > h.t {
                shape_scan_fx(ss.drop_first(), r, t_min, t_max, Option::Some(h), h.t)
            } else {
                shape_scan_fx(ss.drop_first(), r, t_min, t_max, best, closest)
            },
            Option::None => shape_scan_fx(ss.drop_first(), r, t_min, t_max, best, closest),
        }
    }
}

pub open spec fn shape_list_hit_fx(ss: Seq<Shape>, r: RayV, t_min: int, t_max: int) -> Option<
    HitV,
> {
    shape_scan_fx(ss, r, t_min, t_max, Option::None, t_max)
}

pub open spec fn shapes_wf(ss: Seq<Shape>) -> bool {
    forall|i: int| 0 <= i < ss.len() ==> shape_wf(#[trigger] ss[i])
}

/// Exhaustive closest-hit test over a flat list of shapes.
pub fn hit_list(shapes: &Vec<Shape>, ray: &Ray, t_min: i64, t_max: i64) -> (res: Option<HitRecord>)
    requires
        shapes_wf(shapes@),
        ray_wf(ray@),
        -T_FAR <= t_min,
        t_max <= T_FAR,
    ensures
        opt_hit(res) == shape_list_hit_fx(shapes@, ray@, t_min as int, t_max as int),
        hit_opt_wf(opt_hit(res)),
{
    let mut closest_t: i64 = t_max;
    let mut best: Option<HitRecord> = Option::None;
    let mut i: usize = 0;
    proof {
        assert(shapes@.skip(0) =~= shapes@);
    }
    while i < shapes.len()
        invariant
            i <= shapes@.len(),
            shapes_wf(shapes@),
            ray_wf(ray@),
            -T_FAR <= t_min,
            t_max <= T_FAR,
            hit_opt_wf(opt_hit(best)),
            shape_scan_fx(
                shapes@.skip(i as int),
                ray@,
                t_min as int,
                t_max as int,
                opt_hit(best),
                closest_t as int,
            ) == shape_list_hit_fx(shapes@, ray@, t_min as int, t_max as int),
        decreases shapes@.len() - i,
    {
        proof {
            assert(shapes@.skip(i as int)[0] == shapes@[i as int]);
            assert(shapes@.skip(i as int).drop_first() =~= shapes@.skip(i as int + 1));
        }
        let rec: Option<HitRecord> = shapes[i].hit_by(ray, t_min, t_max);
        match rec {
            Option::Some(r) => {
                if closest_t > r.t {
                    closest_t = r.t;
                    best = Option::Some(r);
                }
            },
            Option::None => {},
        }
        i = i + 1;
    }
    best
}

/// A hit on any shape found under a tight upper bound is matched under
/// a wider one, at the same or a smaller parameter.
pub proof fn lemma_shape_hit_widens(s: Shape, r: RayV, t_min: int, tm: int, t_max: int)
    requires
        tm <= t_max,
        shape_hit_fx(s, r, t_min, tm) is Some,
    ensures
        match (shape_hit_fx(s, r, t_min, t_max), shape_hit_fx(s, r, t_min, tm)) {
            (Option::Some(hw), Option::Some(hn)) => hw.t <= hn.t,
            _ => false,
        },
{
    match s {
        Shape::Sphere(x) => {
            lemma_sphere_hit_widens(x, r, t_min, tm, t_max);
        },
        Shape::Plane(x) => {
            lemma_plane_hit_widens(x, r, t_min, tm, t_max);
        },
        Shape::Triangle(x) => {
            lemma_triangle_hit_widens(x, r, t_min, tm, t_max);
        },
        Shape::TriangleMesh(x) => {
            lemma_tri_list_hit_widens(x.triangles@, r, t_min, tm, t_max);
        },
        Shape::Parallelepiped(x) => {
            lemma_tri_list_hit_widens(x.triangles@, r, t_min, tm, t_max);
        },
    }
}

/// A running best hit can only improve: whatever the scan returns is at
/// least as close as the best it started from.
pub proof fn lemma_shape_scan_improves(
    ss: Seq<Shape>,
    r: RayV,
    t_min: int,
    t_max: int,
    best: Option<HitV>,
    closest: int,
)
    requires
        match best {
            Option::Some(b) => b.t <= closest,
            Option::None => true,
        },
    ensures
        match best {
            Option::Some(b) => match shape_scan_fx(ss, r, t_min, t_max, Option::Some(b), closest) {
                Option::Some(res) => res.t <= closest,
                Option::None => false,
            },
            Option::None => true,
        },
    decreases ss.len(),
{
    if ss.len() > 0 {
        match best {
            Option::Some(b) => {
                match shape_hit_fx(ss[0], r, t_min, t_max) {
                    Option::Some(h) => {
                        if closest > h.t {
                            lemma_shape_scan_improves(
                                ss.drop_first(),
                                r,
                                t_min,
                                t_max,
                                Option::Some(h),
                                h.t,
                            );
                        } else {
                            lemma_shape_scan_improves(ss.drop_first(), r, t_min, t_max, best, closest);
                        }
                    },
                    Option::None => {
                        lemma_shape_scan_improves(ss.drop_first(), r, t_min, t_max, best, closest);
                    },
                }
            },
            Option::None => {},
        }
    }
}

/// Completeness of the exhaustive scan: if any member reports a hit
/// strictly closer than the running bound, the scan returns a hit at
/// least that close. With the initial bound `t_max` this says the flat
/// list returns the closest member hit.
pub proof fn lemma_shape_scan_complete(
    ss: Seq<Shape>,
    r: RayV,
    t_min: int,
    t_max: int,
    best: Option<HitV>,
    closest: int,
    i: int,
)
    requires
        0 <= i < ss.len(),
        match best {
            Option::Some(b) => b.t <= closest,
            Option::None => true,
        },
        match shape_hit_fx(ss[i], r, t_min, t_max) {
            Option::Some(h) => h.t < closest,
            Option::None => false,
        },
    ensures
        match (
            shape_scan_fx(ss, r, t_min, t_max, best, closest),
            shape_hit_fx(ss[i], r, t_min, t_max),
        ) {
            (Option::Some(res), Option::Some(h)) => res.t <= h.t,
            _ => false,
        },
    decreases ss.len(),
{
    let h0 = shape_hit_fx(ss[0], r, t_min, t_max);
    if i == 0 {
        match h0 {
            Option::Some(h) => {
                lemma_shape_scan_improves(ss.drop_first(), r, t_min, t_max, Option::Some(h), h.t);
            },
            Option::None => {},
        }
    } else {
        assert(ss.drop_first()[i - 1] == ss[i]);
        match h0 {
            Option::Some(h) => {
                if closest > h.t {
                    let hi = shape_hit_fx(ss[i], r, t_min, t_max);
                    match hi {
                        Option::Some(hh) => {
                            if hh.t < h.t {
                                lemma_shape_scan_complete(
                                    ss.drop_first(),
                                    r,
                                    t_min,
                                    t_max,
                                    Option::Some(h),
                                    h.t,
                                    i - 1,
                                );
                            } else {
                                lemma_shape_scan_improves(
                                    ss.drop_first(),
                                    r,
                                    t_min,
                                    t_max,
                                    Option::Some(h),
                                    h.t,
                                );
                            }
                        },
                        Option::None => {},
                    }
                } else {
                    lemma_shape_scan_complete(ss.drop_first(), r, t_min, t_max, best, closest, i - 1);
                }
            },
            Option::None => {
                lemma_shape_scan_complete(ss.drop_first(), r, t_min, t_max, best, closest, i - 1);
            },
        }
    }
}

/// The flat list is the correctness baseline: whenever some member hits
/// strictly inside the range, the exhaustive scan reports a hit, and it
/// is at least as close as every member's hit.
pub proof fn lemma_list_hit_closest(ss: Seq<Shape>, r: RayV, t_min: int, t_max: int, i: int)
    requires
        0 <= i < ss.len(),
        match shape_hit_fx(ss[i], r, t_min, t_max) {
            Option::Some(h) => h.t < t_max,
            Option::None => false,
        },
    ensures
        match (shape_list_hit_fx(ss, r, t_min, t_max), shape_hit_fx(ss[i], r, t_min, t_max)) {
            (Option::Some(res), Option::Some(h)) => res.t <= h.t,
            _ => false,
        },
{
    lemma_shape_scan_complete(ss, r, t_min, t_max, Option::None, t_max, i);
}

/// Fold of `surrounding_fx` over a shape sequence's boxes.
pub open spec fn shape_fold_bbox(ss: Seq<Shape>, acc: BBoxV) -> BBoxV
    decreases ss.len(),
{
    if ss.len() == 0 {
        acc
    } else {
        shape_fold_bbox(ss.drop_first(), surrounding_fx(acc, shape_bbox_fx(ss[0])))
    }
}

pub open spec fn shape_list_bbox_fx(ss: Seq<Shape>) -> BBoxV {
    shape_fold_bbox(ss.drop_first(), shape_bbox_fx(ss[0]))
}

/// Bounding box of a nonempty shape list. An empty list is a
/// programming error and is excluded by contract.
pub fn bounding_box_list(shapes: &Vec<Shape>) -> (b: BBox)
    requires
        shapes@.len() >= 1,
        shapes_wf(shapes@),
    ensures
        b@ == shape_list_bbox_fx(shapes@),
        bbox_wf(b@),
{
    let mut acc: BBox = shapes[0].bounding_box();
    let mut i: usize = 1;
    proof {
        assert(shapes@.skip(1) =~= shapes@.drop_first());
    }
    while i < shapes.len()
        invariant
            1 <= i <= shapes@.len(),
            shapes_wf(shapes@),
            bbox_wf(acc@),
            shape_fold_bbox(shapes@.skip(i as int), acc@) == shape_list_bbox_fx(shapes@),
        decreases shapes@.len() - i,
    {
        proof {
            assert(shapes@.skip(i as int)[0] == shapes@[i as int]);
            assert(shapes@.skip(i as int).drop_first() =~= shapes@.skip(i as int + 1));
        }
        let sb: BBox = shapes[i].bounding_box();
        acc = BBox::surrounding_box(acc, sb);
        i = i + 1;
    }
    acc
}

} // verus!
