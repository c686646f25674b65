use vstd::prelude::*;

use crate::common::{div_fl, lemma_abs_mul_le, lemma_div_ge_of, lemma_div_le_of, OMAX, SCALE, TMAX, VMAX};
use crate::vec3::{in_range, Point3, Vec3};

verus! {

/// A ray with origin, direction and a time-in-shutter stamp; immutable once
/// constructed.
#[derive(Clone, Copy, Debug, PartialEq, Eq, Structural)]
pub struct Ray {
    pub origin: Point3,
    pub direction: Vec3,
    pub time: i64,
}

/// Rays the intersection routines accept: coordinates within the scene
/// bound, time within one shutter unit.
pub open spec fn ray_wf(r: Ray) -> bool {
    &&& crate::vec3::abs_le(r.origin, OMAX as int)
    &&& in_range(r.direction)
    &&& 0 <= r.time <= SCALE
}

impl Ray {
    pub fn new(origin: Point3, direction: Vec3, time: i64) -> (r: Ray)
        ensures
            r == (Ray { origin, direction, time }),
    {
        Ray { origin, direction, time }
    }

    /// The point `origin + t * direction` on the ray, rounded to the grid.
    pub fn at(&self, t: i64) -> (p: Point3)
        requires
            crate::vec3::abs_le(self.origin, OMAX as int),
            in_range(self.direction),
            -TMAX <= t <= TMAX,
        ensures
            p.x == self.origin.x + (t * self.direction.x) / (SCALE as int),
            p.y == self.origin.y + (t * self.direction.y) / (SCALE as int),
            p.z == self.origin.z + (t * self.direction.z) / (SCALE as int),
    {
        proof {
            lemma_abs_mul_le(t as int, self.direction.x as int, TMAX as int, VMAX as int);
            lemma_abs_mul_le(t as int, self.direction.y as int, TMAX as int, VMAX as int);
            lemma_abs_mul_le(t as int, self.direction.z as int, TMAX as int, VMAX as int);
            lemma_div_le_of(t as int * self.direction.x, 0x2000_0000_0000_0000, SCALE as int);
            lemma_div_ge_of(t as int * self.direction.x, -0x2000_0000_0000_0000, SCALE as int);
            lemma_div_le_of(t as int * self.direction.y, 0x2000_0000_0000_0000, SCALE as int);
            lemma_div_ge_of(t as int * self.direction.y, -0x2000_0000_0000_0000, SCALE as int);
            lemma_div_le_of(t as int * self.direction.z, 0x2000_0000_0000_0000, SCALE as int);
            lemma_div_ge_of(t as int * self.direction.z, -0x2000_0000_0000_0000, SCALE as int);
        }
        let px = (self.origin.x as i128) + div_fl((t as i128) * (self.direction.x as i128),
            SCALE as i128);
        let py = (self.origin.y as i128) + div_fl((t as i128) * (self.direction.y as i128),
            SCALE as i128);
        let pz = (self.origin.z as i128) + div_fl((t as i128) * (self.direction.z as i128),
            SCALE as i128);
        Point3 { x: px as i64, y: py as i64, z: pz as i64 }
    }
}

} // verus!
