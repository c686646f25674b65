use vstd::prelude::*;

use crate::aabb::{pad_box, slab_hit_spec, AABB};
use crate::common::{
    div_fl, lemma_abs_mul_le, lemma_div_ge_of, lemma_div_le_of, mul_wide, PMAX, SCALE,
};
use crate::hittable::HitRecord;
use crate::interval::{interval_wf, Interval};
use crate::ray::{ray_wf, Ray};
use crate::vec3::{
    abs_le, cross, cross_spec, dot, dot_spec, in_range, normalize_spec, unit_wide, Point3, Vec3,
};

verus! {

/// A parallelogram spanned by edges `u` and `v` from the anchor `q`.  `n` is
/// the exact edge cross product, `d` the exact plane offset `n . q`, and
/// `normal` the rounded unit normal stored for hit records.
#[derive(Clone, Copy, Debug, PartialEq, Eq, Structural)]
pub struct Quad {
    pub q: Point3,
    pub u: Vec3,
    pub v: Vec3,
    pub mat: usize,
    pub bbox: AABB,
    pub normal: Vec3,
    pub n: Vec3,
    pub d: i128,
}

/// The least and greatest of the four corner coordinates `q`, `q+u`,
/// `q+v`, `q+u+v` along one axis.
pub open spec fn corner_min(q: int, u: int, v: int) -> int {
    q + (if u < 0 { u } else { 0 }) + (if v < 0 { v } else { 0 })
}

pub open spec fn corner_max(q: int, u: int, v: int) -> int {
    q + (if u > 0 { u } else { 0 }) + (if v > 0 { v } else { 0 })
}

/// The box around all four corners of the parallelogram, before padding.
pub open spec fn quad_corner_box(q: Point3, u: Vec3, v: Vec3) -> AABB {
    AABB {
        x: Interval {
            min: corner_min(q.x as int, u.x as int, v.x as int) as i64,
            max: corner_max(q.x as int, u.x as int, v.x as int) as i64,
        },
        y: Interval {
            min: corner_min(q.y as int, u.y as int, v.y as int) as i64,
            max: corner_max(q.y as int, u.y as int, v.y as int) as i64,
        },
        z: Interval {
            min: corner_min(q.z as int, u.z as int, v.z as int) as i64,
            max: corner_max(q.z as int, u.z as int, v.z as int) as i64,
        },
    }
}

pub open spec fn quad_wf(qd: Quad) -> bool {
    &&& in_range(qd.q)
    &&& in_range(qd.u)
    &&& in_range(qd.v)
    &&& qd.n.x == cross_spec(qd.u, qd.v).0
    &&& qd.n.y == cross_spec(qd.u, qd.v).1
    &&& qd.n.z == cross_spec(qd.u, qd.v).2
    &&& dot_spec(qd.n, qd.n) > 0
    &&& qd.d == dot_spec(qd.n, qd.q)
    &&& qd.normal == normalize_spec(qd.n)
    &&& abs_le(qd.normal, SCALE as int)
    &&& qd.bbox == pad_box(quad_corner_box(qd.q, qd.u, qd.v))
}

/// The record a quad reports once the plane and interior tests pass.
pub open spec fn quad_rec_spec(qd: Quad, r: Ray, t: int, px: int, py: int, pz: int,
    c1: int, c2: int, nn: int) -> HitRecord {
    let front = dot_spec(r.direction, qd.normal) < 0;
    HitRecord {
        p: Vec3 { x: px as i64, y: py as i64, z: pz as i64 },
        normal: Vec3 {
            x: (if front { qd.normal.x as int } else { -qd.normal.x }) as i64,
            y: (if front { qd.normal.y as int } else { -qd.normal.y }) as i64,
            z: (if front { qd.normal.z as int } else { -qd.normal.z }) as i64,
        },
        mat: qd.mat,
        t: t as i64,
        u: ((c1 * 1024) / nn) as i64,
        v: ((c2 * 1024) / nn) as i64,
        front_face: front,
    }
}

/// The exact mirror of the quad intersection: bounding-box pre-check, plane
/// hit inside `ray_t`, a coordinate-budget check on the local offset, and the
/// exact barycentric interior test `0 <= alpha <= 1 && 0 <= beta <= 1`.
pub open spec fn quad_hit_spec(qd: Quad, r: Ray, ray_t: Interval) -> Option<HitRecord> {
    if !slab_hit_spec(qd.bbox, r, ray_t) {
        None
    } else {
        let den = dot_spec(qd.n, r.direction);
        if den == 0 {
            None
        } else {
            let tnum = qd.d - dot_spec(qd.n, r.origin);
            let pn = if den > 0 { tnum * 1024 } else { -(tnum * 1024) };
            let pd = if den > 0 { den } else { -den };
            if !(ray_t.min * pd <= pn && pn <= ray_t.max * pd) {
                None
            } else {
                let t = pn / pd;
                let px = r.origin.x + (t * r.direction.x) / 1024;
                let py = r.origin.y + (t * r.direction.y) / 1024;
                let pz = r.origin.z + (t * r.direction.z) / 1024;
                let xx = px - qd.q.x;
                let xy = py - qd.q.y;
                let xz = pz - qd.q.z;
                if xx > 0x1000_0000 || xx < -0x1000_0000 || xy > 0x1000_0000
                    || xy < -0x1000_0000 || xz > 0x1000_0000 || xz < -0x1000_0000 {
                    None
                } else {
                    let nn = dot_spec(qd.n, qd.n);
                    let c1 = qd.n.x * (xy * qd.v.z - xz * qd.v.y)
                        + qd.n.y * (xz * qd.v.x - xx * qd.v.z)
                        + qd.n.z * (xx * qd.v.y - xy * qd.v.x);
                    let c2 = qd.n.x * (qd.u.y * xz - qd.u.z * xy)
                        + qd.n.y * (qd.u.z * xx - qd.u.x * xz)
                        + qd.n.z * (qd.u.x * xy - qd.u.y * xx);
                    if 0 <= c1 && c1 <= nn && 0 <= c2 && c2 <= nn {
                        Some(quad_rec_spec(qd, r, t, px, py, pz, c1, c2, nn))
                    } else {
                        None
                    }
                }
            }
        }
    }
}

/// A reported quad hit always lies inside the unit barycentric footprint:
/// the exact coordinates `alpha = c1/nn` and `beta = c2/nn` both lie in
/// `[0, 1]`, so a ray meeting the plane outside the footprint is rejected.
pub proof fn lemma_quad_hit_interior(qd: Quad, r: Ray, ray_t: Interval)
    ensures
        quad_hit_spec(qd, r, ray_t) is Some ==> {
            let den = dot_spec(qd.n, r.direction);
            let tnum = qd.d - dot_spec(qd.n, r.origin);
            let pn = if den > 0 { tnum * 1024 } else { -(tnum * 1024) };
            let pd = if den > 0 { den } else { -den };
            let t = pn / pd;
            let px = r.origin.x + (t * r.direction.x) / 1024;
            let py = r.origin.y + (t * r.direction.y) / 1024;
            let pz = r.origin.z + (t * r.direction.z) / 1024;
            let xx = px - qd.q.x;
            let xy = py - qd.q.y;
            let xz = pz - qd.q.z;
            let nn = dot_spec(qd.n, qd.n);
            let c1 = qd.n.x * (xy * qd.v.z - xz * qd.v.y)
                + qd.n.y * (xz * qd.v.x - xx * qd.v.z)
                + qd.n.z * (xx * qd.v.y - xy * qd.v.x);
            let c2 = qd.n.x * (qd.u.y * xz - qd.u.z * xy)
                + qd.n.y * (qd.u.z * xx - qd.u.x * xz)
                + qd.n.z * (qd.u.x * xy - qd.u.y * xx);
            0 <= c1 <= nn && 0 <= c2 <= nn
        },
{
}

/// Whether the rounded planar coordinates `(a, b)` lie inside the unit
/// square; on success they are recorded as the hit's texture coordinates.
pub fn is_interior(a: i64, b: i64, rec: &mut HitRecord) -> (res: bool)
    ensures
        res == (0 <= a <= SCALE && 0 <= b <= SCALE),
        res ==> *final(rec) == (HitRecord { u: a, v: b, ..*old(rec) }),
        !res ==> *final(rec) == *old(rec),
{
    if a < 0 || a > SCALE || b < 0 || b > SCALE {
        return false;
    }
    rec.u = a;
    rec.v = b;
    true
}

impl Quad {
    pub fn new(q: Point3, u: Vec3, v: Vec3, mat: usize) -> (s: Quad)
        requires
            in_range(q),
            in_range(u),
            in_range(v),
            !(cross_spec(u, v).0 == 0 && cross_spec(u, v).1 == 0 && cross_spec(u, v).2 == 0),
        ensures
            quad_wf(s),
            s.q == q,
            s.u == u,
            s.v == v,
            s.mat == mat,
    {
        let n = cross(&u, &v);
        proof {
            assert(dot_spec(n, n) > 0) by (nonlinear_arith)
                requires
                    !(n.x == 0 && n.y == 0 && n.z == 0),
            ;
            assert(-0x80_0000_0000_0000 <= n.x <= 0x80_0000_0000_0000
                && -0x80_0000_0000_0000 <= n.y <= 0x80_0000_0000_0000
                && -0x80_0000_0000_0000 <= n.z <= 0x80_0000_0000_0000) by (nonlinear_arith)
                requires
                    n.x == u.y * v.z - u.z * v.y,
                    n.y == u.z * v.x - u.x * v.z,
                    n.z == u.x * v.y - u.y * v.x,
                    in_range(u),
                    in_range(v),
                    crate::common::VMAX == 0x800_0000,
            ;
            lemma_abs_mul_le(n.x as int, q.x as int, 0x80_0000_0000_0000, 0x800_0000);
            lemma_abs_mul_le(n.y as int, q.y as int, 0x80_0000_0000_0000, 0x800_0000);
            lemma_abs_mul_le(n.z as int, q.z as int, 0x80_0000_0000_0000, 0x800_0000);
        }
        let normal = unit_wide(&n);
        let d = mul_wide(n.x as i128, q.x as i128) + mul_wide(n.y as i128, q.y as i128)
            + mul_wide(n.z as i128, q.z as i128);
        let lo = Point3 {
            x: q.x + (if u.x < 0 { u.x } else { 0 }) + (if v.x < 0 { v.x } else { 0 }),
            y: q.y + (if u.y < 0 { u.y } else { 0 }) + (if v.y < 0 { v.y } else { 0 }),
            z: q.z + (if u.z < 0 { u.z } else { 0 }) + (if v.z < 0 { v.z } else { 0 }),
        };
        let hi = Point3 {
            x: q.x + (if u.x > 0 { u.x } else { 0 }) + (if v.x > 0 { v.x } else { 0 }),
            y: q.y + (if u.y > 0 { u.y } else { 0 }) + (if v.y > 0 { v.y } else { 0 }),
            z: q.z + (if u.z > 0 { u.z } else { 0 }) + (if v.z > 0 { v.z } else { 0 }),
        };
        let bbox = AABB::new(&lo, &hi).pad();
        Quad { q, u, v, mat, bbox, normal, n, d }
    }

    pub fn bounding_box(&self) -> (b: AABB)
        ensures
            b == self.bbox,
    {
        self.bbox
    }

    /// Ray-plane intersection with the exact interior test of the mirror
    /// specification.
    pub fn hit(&self, r: &Ray, ray_t: Interval, rec: &mut HitRecord) -> (res: bool)
        requires
            quad_wf(*self),
            ray_wf(*r),
            interval_wf(ray_t),
        ensures
            match quad_hit_spec(*self, *r, ray_t) {
                Some(rr) => res && *final(rec) == rr,
                None => !res && *final(rec) == *old(rec),
            },
            res ==> {
                let rr = *final(rec);
                &&& abs_le(rr.p, PMAX as int)
                &&& abs_le(rr.normal, SCALE as int)
                &&& ray_t.min <= rr.t <= ray_t.max
                &&& 0 <= rr.u <= SCALE
                &&& 0 <= rr.v <= SCALE
                &&& rr.mat == self.mat
            },
    {
        if !self.bbox.hit(r, ray_t) {
            return false;
        }
        proof {
            let n = self.n;
            let u = self.u;
            let v = self.v;
            assert(-0x80_0000_0000_0000 <= n.x <= 0x80_0000_0000_0000
                && -0x80_0000_0000_0000 <= n.y <= 0x80_0000_0000_0000
                && -0x80_0000_0000_0000 <= n.z <= 0x80_0000_0000_0000) by (nonlinear_arith)
                requires
                    n.x == u.y * v.z - u.z * v.y,
                    n.y == u.z * v.x - u.x * v.z,
                    n.z == u.x * v.y - u.y * v.x,
                    in_range(u),
                    in_range(v),
                    crate::common::VMAX == 0x800_0000,
            ;
        }
        let nx = self.n.x as i128;
        let ny = self.n.y as i128;
        let nz = self.n.z as i128;
        proof {
            lemma_abs_mul_le(nx as int, r.direction.x as int, 0x80_0000_0000_0000, 0x800_0000);
            lemma_abs_mul_le(ny as int, r.direction.y as int, 0x80_0000_0000_0000, 0x800_0000);
            lemma_abs_mul_le(nz as int, r.direction.z as int, 0x80_0000_0000_0000, 0x800_0000);
        }
        let den = mul_wide(nx, r.direction.x as i128) + mul_wide(ny, r.direction.y as i128)
            + mul_wide(nz, r.direction.z as i128);
        if den == 0 {
            return false;
        }
        proof {
            lemma_abs_mul_le(nx as int, self.q.x as int, 0x80_0000_0000_0000, 0x800_0000);
            lemma_abs_mul_le(ny as int, self.q.y as int, 0x80_0000_0000_0000, 0x800_0000);
            lemma_abs_mul_le(nz as int, self.q.z as int, 0x80_0000_0000_0000, 0x800_0000);
            lemma_abs_mul_le(nx as int, r.origin.x as int, 0x80_0000_0000_0000, 0x8000_0000);
            lemma_abs_mul_le(ny as int, r.origin.y as int, 0x80_0000_0000_0000, 0x8000_0000);
            lemma_abs_mul_le(nz as int, r.origin.z as int, 0x80_0000_0000_0000, 0x8000_0000);
            lemma_abs_mul_le(nx as int, self.q.x as int, 0x80_0000_0000_0000, 0x800_0000);
            lemma_abs_mul_le(ny as int, self.q.y as int, 0x80_0000_0000_0000, 0x800_0000);
            lemma_abs_mul_le(nz as int, self.q.z as int, 0x80_0000_0000_0000, 0x800_0000);
        }
        let tnum = self.d - (mul_wide(nx, r.origin.x as i128)
            + mul_wide(ny, r.origin.y as i128) + mul_wide(nz, r.origin.z as i128));
        let (pn, pd) = if den > 0 {
            (tnum * 1024, den)
        } else {
            (-(tnum * 1024), -den)
        };
        let qmin = ray_t.min as i128;
        let qmax = ray_t.max as i128;
        proof {
            lemma_abs_mul_le(qmin as int, pd as int, 0x100_0000_0000,
                0x10_0000_0000_0000_0000_0000);
            lemma_abs_mul_le(qmax as int, pd as int, 0x100_0000_0000,
                0x10_0000_0000_0000_0000_0000);
        }
        if !(qmin * pd <= pn && pn <= qmax * pd) {
            return false;
        }
        proof {
            lemma_div_ge_of(pn as int, ray_t.min as int, pd as int);
            lemma_div_le_of(pn as int, ray_t.max as int, pd as int);
        }
        let t = div_fl(pn, pd) as i64;
        let p = r.at(t);
        proof {
            lemma_abs_mul_le(t as int, r.direction.x as int, 0x100_0000_0000, 0x800_0000);
            lemma_abs_mul_le(t as int, r.direction.y as int, 0x100_0000_0000, 0x800_0000);
            lemma_abs_mul_le(t as int, r.direction.z as int, 0x100_0000_0000, 0x800_0000);
            lemma_div_le_of(t as int * r.direction.x, 0x800_0000_0000_0000, 1024);
            lemma_div_ge_of(t as int * r.direction.x, -0x800_0000_0000_0000, 1024);
            lemma_div_le_of(t as int * r.direction.y, 0x800_0000_0000_0000, 1024);
            lemma_div_ge_of(t as int * r.direction.y, -0x800_0000_0000_0000, 1024);
            lemma_div_le_of(t as int * r.direction.z, 0x800_0000_0000_0000, 1024);
            lemma_div_ge_of(t as int * r.direction.z, -0x800_0000_0000_0000, 1024);
        }
        let xx = p.x - self.q.x;
        let xy = p.y - self.q.y;
        let xz = p.z - self.q.z;
        if xx > 0x1000_0000 || xx < -0x1000_0000 || xy > 0x1000_0000 || xy < -0x1000_0000
            || xz > 0x1000_0000 || xz < -0x1000_0000 {
            return false;
        }
        let nn = mul_wide(nx, nx) + mul_wide(ny, ny) + mul_wide(nz, nz);
        proof {
            lemma_abs_mul_le(xy as int, self.v.z as int, 0x1000_0000, 0x800_0000);
            lemma_abs_mul_le(xz as int, self.v.y as int, 0x1000_0000, 0x800_0000);
            lemma_abs_mul_le(xz as int, self.v.x as int, 0x1000_0000, 0x800_0000);
            lemma_abs_mul_le(xx as int, self.v.z as int, 0x1000_0000, 0x800_0000);
            lemma_abs_mul_le(xx as int, self.v.y as int, 0x1000_0000, 0x800_0000);
            lemma_abs_mul_le(xy as int, self.v.x as int, 0x1000_0000, 0x800_0000);
            lemma_abs_mul_le(self.u.y as int, xz as int, 0x800_0000, 0x1000_0000);
            lemma_abs_mul_le(self.u.z as int, xy as int, 0x800_0000, 0x1000_0000);
            lemma_abs_mul_le(self.u.z as int, xx as int, 0x800_0000, 0x1000_0000);
            lemma_abs_mul_le(self.u.x as int, xz as int, 0x800_0000, 0x1000_0000);
            lemma_abs_mul_le(self.u.x as int, xy as int, 0x800_0000, 0x1000_0000);
            lemma_abs_mul_le(self.u.y as int, xx as int, 0x800_0000, 0x1000_0000);
        }
        let cx1 = mul_wide(xy as i128, self.v.z as i128) - mul_wide(xz as i128, self.v.y as i128);
        let cy1 = mul_wide(xz as i128, self.v.x as i128) - mul_wide(xx as i128, self.v.z as i128);
        let cz1 = mul_wide(xx as i128, self.v.y as i128) - mul_wide(xy as i128, self.v.x as i128);
        let cx2 = mul_wide(self.u.y as i128, xz as i128) - mul_wide(self.u.z as i128, xy as i128);
        let cy2 = mul_wide(self.u.z as i128, xx as i128) - mul_wide(self.u.x as i128, xz as i128);
        let cz2 = mul_wide(self.u.x as i128, xy as i128) - mul_wide(self.u.y as i128, xx as i128);
        let c1 = mul_wide(nx, cx1) + mul_wide(ny, cy1) + mul_wide(nz, cz1);
        let c2 = mul_wide(nx, cx2) + mul_wide(ny, cy2) + mul_wide(nz, cz2);
        if !(0 <= c1 && c1 <= nn && 0 <= c2 && c2 <= nn) {
            return false;
        }
        proof {
            lemma_abs_mul_le(nx as int, nx as int, 0x80_0000_0000_0000, 0x80_0000_0000_0000);
            lemma_abs_mul_le(ny as int, ny as int, 0x80_0000_0000_0000, 0x80_0000_0000_0000);
            lemma_abs_mul_le(nz as int, nz as int, 0x80_0000_0000_0000, 0x80_0000_0000_0000);
            assert(nn > 0);
            lemma_div_ge_of(c1 as int * 1024, 0, nn as int);
            assert(c1 * 1024 <= nn * 1024) by (nonlinear_arith)
                requires
                    0 <= c1 <= nn,
            ;
            lemma_div_le_of(c1 as int * 1024, 1024, nn as int);
            lemma_div_ge_of(c2 as int * 1024, 0, nn as int);
            assert(c2 * 1024 <= nn * 1024) by (nonlinear_arith)
                requires
                    0 <= c2 <= nn,
            ;
            lemma_div_le_of(c2 as int * 1024, 1024, nn as int);
        }
        let uu = div_fl(c1 * 1024, nn) as i64;
        let vv = div_fl(c2 * 1024, nn) as i64;
        let front = dot(&r.direction, &self.normal) < 0;
        *rec = HitRecord {
            p,
            normal: if front {
                self.normal
            } else {
                Vec3 { x: -self.normal.x, y: -self.normal.y, z: -self.normal.z }
            },
            mat: self.mat,
            t,
            u: uu,
            v: vv,
            front_face: front,
        };
        true
    }
}

/// The six faces of an axis-aligned box spanned by the two opposite corners
/// `a` and `b`.
#[verifier::rlimit(100)]
pub fn make_box(a: &Point3, b: &Point3, mat: usize) -> (l: crate::hittable_list::HittableList)
    requires
        abs_le(*a, 0x400_0000),
        abs_le(*b, 0x400_0000),
        a.x != b.x,
        a.y != b.y,
        a.z != b.z,
    ensures
        crate::hittable::wf(crate::hittable::Hittable::List(l)),
        l.objects@.len() == 6,
{
    let min = Point3 {
        x: if a.x < b.x { a.x } else { b.x },
        y: if a.y < b.y { a.y } else { b.y },
        z: if a.z < b.z { a.z } else { b.z },
    };
    let max = Point3 {
        x: if a.x > b.x { a.x } else { b.x },
        y: if a.y > b.y { a.y } else { b.y },
        z: if a.z > b.z { a.z } else { b.z },
    };
    let dx = Vec3 { x: max.x - min.x, y: 0, z: 0 };
    let dy = Vec3 { x: 0, y: max.y - min.y, z: 0 };
    let dz = Vec3 { x: 0, y: 0, z: max.z - min.z };
    let ndx = Vec3 { x: min.x - max.x, y: 0, z: 0 };
    let ndz = Vec3 { x: 0, y: 0, z: min.z - max.z };
    proof {
        lemma_axis_cross_nonzero(max.x - min.x, max.y - min.y, max.z - min.z);
    }
    let mut sides = crate::hittable_list::HittableList::new_empty();
    sides.add_obj(crate::hittable::Hittable::Quad(
        Quad::new(Point3 { x: min.x, y: min.y, z: max.z }, dx, dy, mat)));
    sides.add_obj(crate::hittable::Hittable::Quad(
        Quad::new(Point3 { x: max.x, y: min.y, z: max.z }, ndz, dy, mat)));
    sides.add_obj(crate::hittable::Hittable::Quad(
        Quad::new(Point3 { x: max.x, y: min.y, z: min.z }, ndx, dy, mat)));
    sides.add_obj(crate::hittable::Hittable::Quad(
        Quad::new(Point3 { x: min.x, y: min.y, z: min.z }, dz, dy, mat)));
    sides.add_obj(crate::hittable::Hittable::Quad(
        Quad::new(Point3 { x: min.x, y: max.y, z: max.z }, dx, ndz, mat)));
    sides.add_obj(crate::hittable::Hittable::Quad(
        Quad::new(Point3 { x: min.x, y: min.y, z: max.z }, dx, dz, mat)));
    sides
}

/// The unit cube from the origin to (1, 1, 1).
pub fn make_cube(mat: usize) -> (l: crate::hittable_list::HittableList)
    ensures
        crate::hittable::wf(crate::hittable::Hittable::List(l)),
        l.objects@.len() == 6,
{
    make_box(&Point3 { x: 0, y: 0, z: 0 }, &Point3 { x: 1024, y: 1024, z: 1024 }, mat)
}

/// Axis-aligned edge vectors of positive extent have nonzero pairwise cross
/// products.
proof fn lemma_axis_cross_nonzero(ex: int, ey: int, ez: int)
    requires
        ex > 0,
        ey > 0,
        ez > 0,
    ensures
        ex * ey > 0,
        ey * ez > 0,
        ex * ez > 0,
        (-ez) * ey < 0,
        (-ex) * ey < 0,
        ez * ey > 0,
        ex * (-ez) < 0,
        ex * ez > 0,
{
    assert(ex * ey > 0 && ey * ez > 0 && ex * ez > 0 && (-ez) * ey < 0 && (-ex) * ey < 0
        && ez * ey > 0 && ex * (-ez) < 0) by (nonlinear_arith)
        requires
            ex > 0,
            ey > 0,
            ez > 0,
    ;
}

} // verus!
