//! Points in the fixed-point world, sharing the `V3` spec model with
//! vectors.

use vstd::prelude::*;
use crate::vec3::{V3, Vec3, add3, sub3, v3_fits};

verus! {

#[derive(Clone, Copy, Debug, PartialEq, Eq, Structural)]
pub struct Point3 {
    pub x: i64,
    pub y: i64,
    pub z: i64,
}

impl View for Point3 {
    type V = V3;

    open spec fn view(&self) -> V3 {
        V3 { x: self.x as int, y: self.y as int, z: self.z as int }
    }
}

impl Point3 {
    pub fn zero() -> (p: Point3)
        ensures
            p@ == (V3 { x: 0, y: 0, z: 0 }),
    {
        Point3 { x: 0, y: 0, z: 0 }
    }

    pub fn new(x: i64, y: i64, z: i64) -> (p: Point3)
        ensures
            p@ == (V3 { x: x as int, y: y as int, z: z as int }),
    {
        Point3 { x, y, z }
    }

    /// Translate the point by a vector.
    pub fn add_v(self, v: Vec3) -> (r: Point3)
        requires
            v3_fits(add3(self@, v@)),
        ensures
            r@ == add3(self@, v@),
    {
        Point3 { x: self.x + v.x, y: self.y + v.y, z: self.z + v.z }
    }

    /// Translate the point backwards along a vector.
    pub fn sub_v(self, v: Vec3) -> (r: Point3)
        requires
            v3_fits(sub3(self@, v@)),
        ensures
            r@ == sub3(self@, v@),
    {
        Point3 { x: self.x - v.x, y: self.y - v.y, z: self.z - v.z }
    }

    /// The vector from `o` to `self`.
    pub fn sub_p(self, o: Point3) -> (r: Vec3)
        requires
            v3_fits(sub3(self@, o@)),
        ensures
            r@ == sub3(self@, o@),
    {
        Vec3 { x: self.x - o.x, y: self.y - o.y, z: self.z - o.z }
    }
}

} // verus!
