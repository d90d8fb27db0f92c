//! Axis-aligned bounding boxes with a slab-method ray test and a merge
//! operation.

use vstd::prelude::*;
use crate::fx;
use crate::fx::{T_HUGE, mag, divc_fx, min_i, max_i};
use crate::point3::Point3;
use crate::ray::{Ray, RayV, ray_wf};
use crate::vec3::{V3, v3_bounded};

verus! {

pub ghost struct BBoxV {
    pub min: V3,
    pub max: V3,
}

#[derive(Clone, Copy, Debug)]
pub struct BBox {
    pub min: Point3,
    pub max: Point3,
}

impl View for BBox {
    type V = BBoxV;

    open spec fn view(&self) -> BBoxV {
        BBoxV { min: self.min@, max: self.max@ }
    }
}

/// Box corners within the saturation bound; an unbounded primitive
/// reports corners at `T_HUGE` itself, which every ray parameter stays
/// below.
pub open spec fn bbox_wf(b: BBoxV) -> bool {
    v3_bounded(b.min, T_HUGE as int) && v3_bounded(b.max, T_HUGE as int)
}

/// The componentwise min/max merge of two boxes.
pub open spec fn surrounding_fx(a: BBoxV, b: BBoxV) -> BBoxV {
    BBoxV {
        min: V3 {
            x: min_i(a.min.x, b.min.x),
            y: min_i(a.min.y, b.min.y),
            z: min_i(a.min.z, b.min.z),
        },
        max: V3 {
            x: max_i(a.max.x, b.max.x),
            y: max_i(a.max.y, b.max.y),
            z: max_i(a.max.z, b.max.z),
        },
    }
}

pub open spec fn axis_of(v: V3, i: int) -> int {
    if i == 0 {
        v.x
    } else if i == 1 {
        v.y
    } else {
        v.z
    }
}

/// The slab test from axis `i` on: narrow `[t_min, t_max]` by the entry
/// and exit parameters of each slab, failing as soon as the interval
/// collapses (a grazed face counts as a miss). A ray parallel to a slab
/// hits only if its origin lies inside that slab; this replaces the
/// division by zero the floating-point formulation leans on.
pub open spec fn bbox_hit_from(b: BBoxV, r: RayV, t_min: int, t_max: int, i: nat) -> bool
    decreases 3 - i,
{
    if i >= 3 {
        true
    } else {
        let o = axis_of(r.orig, i as int);
        let d = axis_of(r.dir, i as int);
        let lo = axis_of(b.min, i as int);
        let hi = axis_of(b.max, i as int);
        if d == 0 {
            if o < lo || o > hi {
                false
            } else {
                bbox_hit_from(b, r, t_min, t_max, (i + 1) as nat)
            }
        } else {
            let t0 = divc_fx(lo - o, d);
            let t1 = divc_fx(hi - o, d);
            let ta = if d < 0 {
                t1
            } else {
                t0
            };
            let tb = if d < 0 {
                t0
            } else {
                t1
            };
            let nmin = max_i(t_min, ta);
            let nmax = min_i(t_max, tb);
            if nmax <= nmin {
                false
            } else {
                bbox_hit_from(b, r, nmin, nmax, (i + 1) as nat)
            }
        }
    }
}

/// Whether the ray meets the box within `(t_min, t_max)`.
pub open spec fn bbox_hit_fx(b: BBoxV, r: RayV, t_min: int, t_max: int) -> bool {
    bbox_hit_from(b, r, t_min, t_max, 0)
}

/// Component `i` of a point.
fn axis_p(p: &Point3, i: usize) -> (r: i64)
    requires
        i < 3,
    ensures
        r as int == axis_of(p@, i as int),
{
    if i == 0 {
        p.x
    } else if i == 1 {
        p.y
    } else {
        p.z
    }
}

impl BBox {
    /// Slab-method ray/box test.
    pub fn hit(&self, ray: &Ray, t_min: i64, t_max: i64) -> (r: bool)
        requires
            bbox_wf(self@),
            ray_wf(ray@),
        ensures
            r == bbox_hit_fx(self@, ray@, t_min as int, t_max as int),
    {
        let mut tmin: i64 = t_min;
        let mut tmax: i64 = t_max;
        let mut i: usize = 0;
        while i < 3
            invariant
                i <= 3,
                bbox_wf(self@),
                ray_wf(ray@),
                bbox_hit_from(self@, ray@, tmin as int, tmax as int, i as nat) == bbox_hit_fx(
                    self@,
                    ray@,
                    t_min as int,
                    t_max as int,
                ),
            decreases 3 - i,
        {
            let o: i64 = if i == 0 {
                ray.orig.x
            } else if i == 1 {
                ray.orig.y
            } else {
                ray.orig.z
            };
            let d: i64 = if i == 0 {
                ray.dir.x
            } else if i == 1 {
                ray.dir.y
            } else {
                ray.dir.z
            };
            let lo: i64 = axis_p(&self.min, i);
            let hi: i64 = axis_p(&self.max, i);
            if d == 0 {
                if o < lo || o > hi {
                    return false;
                }
            } else {
                let t0: i64 = fx::fdivc(lo - o, d);
                let t1: i64 = fx::fdivc(hi - o, d);
                let ta: i64 = if d < 0 {
                    t1
                } else {
                    t0
                };
                let tb: i64 = if d < 0 {
                    t0
                } else {
                    t1
                };
                if ta > tmin {
                    tmin = ta;
                }
                if tb < tmax {
                    tmax = tb;
                }
                if tmax <= tmin {
                    return false;
                }
            }
            i = i + 1;
        }
        true
    }

    /// The box that contains both arguments: componentwise min of the
    /// minima and max of the maxima.
    pub fn surrounding_box(box1: BBox, box2: BBox) -> (r: BBox)
        ensures
            r@ == surrounding_fx(box1@, box2@),
    {
        let min = Point3::new(
            fx::fmin(box1.min.x, box2.min.x),
            fx::fmin(box1.min.y, box2.min.y),
            fx::fmin(box1.min.z, box2.min.z),
        );
        let max = Point3::new(
            fx::fmax(box1.max.x, box2.max.x),
            fx::fmax(box1.max.y, box2.max.y),
            fx::fmax(box1.max.z, box2.max.z),
        );
        BBox { min, max }
    }
}

/// Merging is commutative.
pub proof fn lemma_surrounding_comm(a: BBoxV, b: BBoxV)
    ensures
        surrounding_fx(a, b) == surrounding_fx(b, a),
{
}

/// Merging is associative.
pub proof fn lemma_surrounding_assoc(a: BBoxV, b: BBoxV, c: BBoxV)
    ensures
        surrounding_fx(surrounding_fx(a, b), c) == surrounding_fx(a, surrounding_fx(b, c)),
{
}

/// Merging a box with itself gives the box back.
pub proof fn lemma_surrounding_idem(a: BBoxV)
    ensures
        surrounding_fx(a, a) == a,
{
}

/// A merged box stays within the saturation bound.
pub proof fn lemma_surrounding_wf(a: BBoxV, b: BBoxV)
    requires
        bbox_wf(a),
        bbox_wf(b),
    ensures
        bbox_wf(surrounding_fx(a, b)),
{
}

} // verus!
