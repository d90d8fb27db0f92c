//! Rays: an origin point and a direction vector, parameterized by a
//! fixed-point scalar `t`.

use vstd::prelude::*;
use crate::fx::{mag, fits_i64};
use crate::point3::Point3;
use crate::vec3::{V3, Vec3, add3, scale3, v3_bounded, v3_fits};
use crate::vec3::lemma_scale3_bound;

verus! {

/// Bound on the coordinates of scene geometry and of the rays traced
/// against it: 1024 world units. Keeping geometry inside it makes every
/// intersection computation free of `i64` overflow.
pub const WORLD_MAX: i64 = 67108864;

/// Stand-in for an unbounded upper ray parameter, 16777216 world units:
/// farther than any ray can travel inside the world bound.
pub const T_FAR: i64 = 1099511627776;

/// Lower ray-parameter cutoff used by the integrator (about 0.001 world
/// units), which avoids immediately re-hitting the surface a scattered
/// ray starts on.
pub const T_EPS: i64 = 66;

pub ghost struct RayV {
    pub orig: V3,
    pub dir: V3,
}

pub struct Ray {
    pub orig: Point3,
    pub dir: Vec3,
}

impl View for Ray {
    type V = RayV;

    open spec fn view(&self) -> RayV {
        RayV { orig: self.orig@, dir: self.dir@ }
    }
}

/// Origin and direction within the world bound.
pub open spec fn ray_wf(r: RayV) -> bool {
    v3_bounded(r.orig, WORLD_MAX as int) && v3_bounded(r.dir, WORLD_MAX as int)
}

/// The point `orig + t * dir`.
pub open spec fn ray_at_fx(r: RayV, t: int) -> V3 {
    add3(r.orig, scale3(r.dir, t))
}

impl Ray {
    pub fn new(orig: Point3, dir: Vec3) -> (r: Ray)
        ensures
            r@ == (RayV { orig: orig@, dir: dir@ }),
    {
        Ray { orig, dir }
    }

    /// The point the ray reaches at parameter `t`.
    pub fn at(&self, t: i64) -> (p: Point3)
        requires
            ray_wf(self@),
            mag(t as int) <= T_FAR,
        ensures
            p@ == ray_at_fx(self@, t as int),
    {
        proof {
            lemma_scale3_bound(self.dir@, t as int, WORLD_MAX as int, T_FAR as int);
        }
        self.orig.add_v(self.dir.scale(t))
    }

    /// Runtime check for `ray_wf`, used by the integrator to discard
    /// scattered rays that leave the representable world.
    pub fn in_world(&self) -> (b: bool)
        ensures
            b == ray_wf(self@),
    {
        self.orig.x >= -WORLD_MAX && self.orig.x <= WORLD_MAX && self.orig.y >= -WORLD_MAX
            && self.orig.y <= WORLD_MAX && self.orig.z >= -WORLD_MAX && self.orig.z <= WORLD_MAX
            && self.dir.x >= -WORLD_MAX && self.dir.x <= WORLD_MAX && self.dir.y >= -WORLD_MAX
            && self.dir.y <= WORLD_MAX && self.dir.z >= -WORLD_MAX && self.dir.z <= WORLD_MAX
    }
}

} // verus!
