use vstd::prelude::*;

use crate::vec3::{abs_le, dot, dot_spec, Point3, Vec3};
use crate::ray::Ray;

verus! {

/// The record of one ray-surface intersection.  The material is an index
/// into the scene's material table.
#[derive(Clone, Copy, Debug, PartialEq, Eq, Structural)]
pub struct HitRecord {
    pub p: Point3,
    pub normal: Vec3,
    pub mat: usize,
    pub t: i64,
    pub u: i64,
    pub v: i64,
    pub front_face: bool,
}

impl HitRecord {
    pub fn zeroed() -> (r: HitRecord)
        ensures
            r == hit_record_zero(),
    {
        HitRecord {
            p: Vec3 { x: 0, y: 0, z: 0 },
            normal: Vec3 { x: 0, y: 0, z: 0 },
            mat: 0,
            t: 0,
            u: 0,
            v: 0,
            front_face: false,
        }
    }

    /// Orients `outward_normal` against the incoming ray and records which
    /// side was struck.
    pub fn set_face_normal(&mut self, r: &Ray, outward_normal: &Vec3)
        requires
            abs_le(old(self).normal, 0x4000_0000),
            abs_le(r.direction, 0x4000_0000),
            abs_le(*outward_normal, 0x3FFF_FFFF),
        ensures
            final(self).front_face == (dot_spec(r.direction, *outward_normal) < 0),
            final(self).normal.x == if dot_spec(r.direction, *outward_normal) < 0 {
                outward_normal.x as int
            } else {
                -(outward_normal.x as int)
            },
            final(self).normal.y == if dot_spec(r.direction, *outward_normal) < 0 {
                outward_normal.y as int
            } else {
                -(outward_normal.y as int)
            },
            final(self).normal.z == if dot_spec(r.direction, *outward_normal) < 0 {
                outward_normal.z as int
            } else {
                -(outward_normal.z as int)
            },
            final(self).p == old(self).p,
            final(self).mat == old(self).mat,
            final(self).t == old(self).t,
            final(self).u == old(self).u,
            final(self).v == old(self).v,
    {
        self.front_face = dot(&r.direction, outward_normal) < 0;
        self.normal = if self.front_face {
            *outward_normal
        } else {
            Vec3 { x: -outward_normal.x, y: -outward_normal.y, z: -outward_normal.z }
        };
    }
}

pub open spec fn hit_record_zero() -> HitRecord {
    HitRecord {
        p: Vec3 { x: 0i64, y: 0i64, z: 0i64 },
        normal: Vec3 { x: 0i64, y: 0i64, z: 0i64 },
        mat: 0usize,
        t: 0i64,
        u: 0i64,
        v: 0i64,
        front_face: false,
    }
}

/// `outer` holds `inner` on every axis.
pub open spec fn box_contains(outer: crate::aabb::AABB, inner: crate::aabb::AABB) -> bool {
    &&& outer.x.min <= inner.x.min && inner.x.max <= outer.x.max
    &&& outer.y.min <= inner.y.min && inner.y.max <= outer.y.max
    &&& outer.z.min <= inner.z.min && inner.z.max <= outer.z.max
}

/// Anything a ray can intersect: primitives, geometric decorators, the
/// linear aggregate and the hierarchy node, as one closed set of variants.
pub enum Hittable {
    Sphere(crate::sphere::Sphere),
    Quad(crate::quad::Quad),
    Translate(Translate),
    RotateY(RotateY),
    List(crate::hittable_list::HittableList),
    Node(crate::bvh::BVHNode),
}

/// Moves the inner object by `offset` by shifting incoming rays the other
/// way.
pub struct Translate {
    pub object: Box<Hittable>,
    pub offset: Vec3,
    pub bbox: crate::aabb::AABB,
}

impl Translate {
    pub fn new(p: Hittable, displacement: &Vec3) -> (t: Translate)
        requires
            wf(p),
            crate::vec3::in_range(*displacement),
            -0xF000_0000_0000 <= bbox_of(p).x.min <= 0xF000_0000_0000,
            -0xF000_0000_0000 <= bbox_of(p).x.max <= 0xF000_0000_0000,
            -0xF000_0000_0000 <= bbox_of(p).y.min <= 0xF000_0000_0000,
            -0xF000_0000_0000 <= bbox_of(p).y.max <= 0xF000_0000_0000,
            -0xF000_0000_0000 <= bbox_of(p).z.min <= 0xF000_0000_0000,
            -0xF000_0000_0000 <= bbox_of(p).z.max <= 0xF000_0000_0000,
        ensures
            wf(Hittable::Translate(t)),
            *t.object == p,
            t.offset == *displacement,
    {
        proof {
            lemma_wf_box(p);
        }
        let bbox = p.bounding_box().shift(displacement);
        Translate { object: Box::new(p), offset: *displacement, bbox }
    }
}

/// Rotates the inner object about the y axis; `sin_theta` and `cos_theta`
/// are the fixed-point sine and cosine of the angle, supplied by the
/// caller.  Like the aggregate list, the decorator tests its stored box
/// before delegating; the constructor pins that box to the padded extrema
/// of the inner box's rotated corners.
pub struct RotateY {
    pub object: Box<Hittable>,
    pub sin_theta: i64,
    pub cos_theta: i64,
    pub bbox: crate::aabb::AABB,
}

/// A corner's x coordinate after rotating by the angle whose fixed-point
/// sine and cosine are `sc` and `cc`.
pub open spec fn rot_x_spec(sc: int, cc: int, x: int, z: int) -> int {
    (cc * x + sc * z) / 1024
}

/// A corner's z coordinate after the same rotation.
pub open spec fn rot_z_spec(sc: int, cc: int, x: int, z: int) -> int {
    (cc * z - sc * x) / 1024
}

pub open spec fn min4(a: int, b: int, c: int, d: int) -> int {
    let m1 = if a < b { a } else { b };
    let m2 = if c < d { c } else { d };
    if m1 < m2 { m1 } else { m2 }
}

pub open spec fn max4(a: int, b: int, c: int, d: int) -> int {
    let m1 = if a > b { a } else { b };
    let m2 = if c > d { c } else { d };
    if m1 > m2 { m1 } else { m2 }
}

/// The box the rotation decorator stores: the extrema of the inner box's
/// four xz corners under the rotation, padded by one grid step for corner
/// rounding and clamped into the parameter budget; y passes through.
pub open spec fn rotate_box_spec(inner: crate::aabb::AABB, sc: int, cc: int)
    -> crate::aabb::AABB {
    let x0 = inner.x.min as int;
    let x1 = inner.x.max as int;
    let z0 = inner.z.min as int;
    let z1 = inner.z.max as int;
    let xs_min = min4(rot_x_spec(sc, cc, x0, z0), rot_x_spec(sc, cc, x1, z0),
        rot_x_spec(sc, cc, x0, z1), rot_x_spec(sc, cc, x1, z1));
    let xs_max = max4(rot_x_spec(sc, cc, x0, z0), rot_x_spec(sc, cc, x1, z0),
        rot_x_spec(sc, cc, x0, z1), rot_x_spec(sc, cc, x1, z1));
    let zs_min = min4(rot_z_spec(sc, cc, x0, z0), rot_z_spec(sc, cc, x1, z0),
        rot_z_spec(sc, cc, x0, z1), rot_z_spec(sc, cc, x1, z1));
    let zs_max = max4(rot_z_spec(sc, cc, x0, z0), rot_z_spec(sc, cc, x1, z0),
        rot_z_spec(sc, cc, x0, z1), rot_z_spec(sc, cc, x1, z1));
    let t = crate::common::TMAX as int;
    crate::aabb::AABB {
        x: crate::interval::Interval {
            min: crate::common::clamp_spec(xs_min - 1, -t, t) as i64,
            max: crate::common::clamp_spec(xs_max + 1, -t, t) as i64,
        },
        y: inner.y,
        z: crate::interval::Interval {
            min: crate::common::clamp_spec(zs_min - 1, -t, t) as i64,
            max: crate::common::clamp_spec(zs_max + 1, -t, t) as i64,
        },
    }
}

impl RotateY {
    /// The box is pinned to `rotate_box_spec` of the inner object's box.
    pub fn new(p: Hittable, sin_theta: i64, cos_theta: i64) -> (t: RotateY)
        requires
            wf(p),
            -1024 <= sin_theta <= 1024,
            -1024 <= cos_theta <= 1024,
        ensures
            wf(Hittable::RotateY(t)),
            *t.object == p,
            t.sin_theta == sin_theta,
            t.cos_theta == cos_theta,
            t.bbox == rotate_box_spec(bbox_of(p), sin_theta as int, cos_theta as int),
    {
        proof {
            lemma_wf_box(p);
        }
        let inner = p.bounding_box();
        let x0 = inner.x.min;
        let x1 = inner.x.max;
        let z0 = inner.z.min;
        let z1 = inner.z.max;
        let rx00 = rot_corner_x(sin_theta, cos_theta, x0, z0);
        let rx10 = rot_corner_x(sin_theta, cos_theta, x1, z0);
        let rx01 = rot_corner_x(sin_theta, cos_theta, x0, z1);
        let rx11 = rot_corner_x(sin_theta, cos_theta, x1, z1);
        let rz00 = rot_corner_z(sin_theta, cos_theta, x0, z0);
        let rz10 = rot_corner_z(sin_theta, cos_theta, x1, z0);
        let rz01 = rot_corner_z(sin_theta, cos_theta, x0, z1);
        let rz11 = rot_corner_z(sin_theta, cos_theta, x1, z1);
        let xs_min = min2(min2(rx00, rx10), min2(rx01, rx11));
        let xs_max = max2(max2(rx00, rx10), max2(rx01, rx11));
        let zs_min = min2(min2(rz00, rz10), min2(rz01, rz11));
        let zs_max = max2(max2(rz00, rz10), max2(rz01, rz11));
        let bbox = crate::aabb::AABB {
            x: crate::interval::Interval {
                min: crate::common::clamp(xs_min - 1, -crate::common::TMAX,
                    crate::common::TMAX),
                max: crate::common::clamp(xs_max + 1, -crate::common::TMAX,
                    crate::common::TMAX),
            },
            y: inner.y,
            z: crate::interval::Interval {
                min: crate::common::clamp(zs_min - 1, -crate::common::TMAX,
                    crate::common::TMAX),
                max: crate::common::clamp(zs_max + 1, -crate::common::TMAX,
                    crate::common::TMAX),
            },
        };
        RotateY { object: Box::new(p), sin_theta, cos_theta, bbox }
    }
}

fn min2(a: i64, b: i64) -> (r: i64)
    ensures
        r == if a < b { a as int } else { b as int },
{
    if a < b { a } else { b }
}

fn max2(a: i64, b: i64) -> (r: i64)
    ensures
        r == if a > b { a as int } else { b as int },
{
    if a > b { a } else { b }
}

/// The rotated x coordinate of one box corner.
fn rot_corner_x(sc: i64, cc: i64, x: i64, z: i64) -> (r: i64)
    requires
        -1024 <= sc <= 1024,
        -1024 <= cc <= 1024,
        -0x1_0000_0000_0000 <= x <= 0x1_0000_0000_0000,
        -0x1_0000_0000_0000 <= z <= 0x1_0000_0000_0000,
    ensures
        r == rot_x_spec(sc as int, cc as int, x as int, z as int),
        -0x8_0000_0000_0000 <= r <= 0x8_0000_0000_0000,
{
    proof {
        crate::common::lemma_abs_mul_le(cc as int, x as int, 1024, 0x1_0000_0000_0000);
        crate::common::lemma_abs_mul_le(sc as int, z as int, 1024, 0x1_0000_0000_0000);
        crate::common::lemma_div_le_of(cc as int * x as int + sc as int * z as int,
            0x8_0000_0000_0000, 1024);
        crate::common::lemma_div_ge_of(cc as int * x as int + sc as int * z as int,
            -0x8_0000_0000_0000, 1024);
    }
    crate::common::div_fl((cc as i128) * (x as i128) + (sc as i128) * (z as i128), 1024)
        as i64
}

/// The rotated z coordinate of one box corner.
fn rot_corner_z(sc: i64, cc: i64, x: i64, z: i64) -> (r: i64)
    requires
        -1024 <= sc <= 1024,
        -1024 <= cc <= 1024,
        -0x1_0000_0000_0000 <= x <= 0x1_0000_0000_0000,
        -0x1_0000_0000_0000 <= z <= 0x1_0000_0000_0000,
    ensures
        r == rot_z_spec(sc as int, cc as int, x as int, z as int),
        -0x8_0000_0000_0000 <= r <= 0x8_0000_0000_0000,
{
    proof {
        crate::common::lemma_abs_mul_le(cc as int, z as int, 1024, 0x1_0000_0000_0000);
        crate::common::lemma_abs_mul_le(sc as int, x as int, 1024, 0x1_0000_0000_0000);
        crate::common::lemma_div_le_of(cc as int * z as int - sc as int * x as int,
            0x8_0000_0000_0000, 1024);
        crate::common::lemma_div_ge_of(cc as int * z as int - sc as int * x as int,
            -0x8_0000_0000_0000, 1024);
    }
    crate::common::div_fl((cc as i128) * (z as i128) - (sc as i128) * (x as i128), 1024)
        as i64
}

/// The precomputed box of a hittable.
pub open spec fn bbox_of(h: Hittable) -> crate::aabb::AABB {
    match h {
        Hittable::Sphere(s) => s.bbox,
        Hittable::Quad(q) => q.bbox,
        Hittable::Translate(t) => t.bbox,
        Hittable::RotateY(ry) => ry.bbox,
        Hittable::List(l) => l.bbox,
        Hittable::Node(n) => n.bbox,
    }
}

/// Well-formedness of a whole scene object: every variant's own invariant,
/// and a well-formed box at every level.
pub open spec fn wf(h: Hittable) -> bool
    decreases h,
{
    match h {
        Hittable::Sphere(s) => crate::sphere::sphere_wf(s) && crate::aabb::box_wf(s.bbox),
        Hittable::Quad(q) => crate::quad::quad_wf(q) && crate::aabb::box_wf(q.bbox),
        Hittable::Translate(t) => {
            &&& wf(*t.object)
            &&& crate::vec3::in_range(t.offset)
            &&& crate::aabb::box_wf(t.bbox)
            &&& crate::aabb::box_wf(bbox_of(*t.object))
            &&& t.bbox.x.min == bbox_of(*t.object).x.min + t.offset.x
            &&& t.bbox.x.max == bbox_of(*t.object).x.max + t.offset.x
            &&& t.bbox.y.min == bbox_of(*t.object).y.min + t.offset.y
            &&& t.bbox.y.max == bbox_of(*t.object).y.max + t.offset.y
            &&& t.bbox.z.min == bbox_of(*t.object).z.min + t.offset.z
            &&& t.bbox.z.max == bbox_of(*t.object).z.max + t.offset.z
        },
        Hittable::RotateY(ry) => {
            &&& wf(*ry.object)
            &&& -1024 <= ry.sin_theta <= 1024
            &&& -1024 <= ry.cos_theta <= 1024
            &&& crate::aabb::box_wf(ry.bbox)
        },
        Hittable::List(l) => {
            &&& crate::aabb::box_wf(l.bbox)
            &&& forall|i: int| 0 <= i < l.objects@.len() ==> wf(#[trigger] l.objects@[i])
            &&& forall|i: int| 0 <= i < l.objects@.len() ==> box_contains(l.bbox, bbox_of(
                #[trigger] l.objects@[i]))
        },
        Hittable::Node(n) => crate::bvh::node_wf(n),
    }
}

/// A well-formed object carries a well-formed box.
pub proof fn lemma_wf_box(h: Hittable)
    requires
        wf(h),
    ensures
        crate::aabb::box_wf(bbox_of(h)),
{
    match h {
        Hittable::Sphere(s) => {
            assert(crate::aabb::box_wf(s.bbox));
        },
        Hittable::Quad(q) => {
            assert(crate::aabb::box_wf(q.bbox));
        },
        Hittable::Translate(t) => {
            assert(crate::aabb::box_wf(t.bbox));
        },
        Hittable::RotateY(ry) => {
            assert(crate::aabb::box_wf(ry.bbox));
        },
        Hittable::List(l) => {
            assert(crate::aabb::box_wf(l.bbox));
        },
        Hittable::Node(n) => {
            assert(crate::bvh::node_wf(n));
            assert(crate::aabb::box_wf(n.bbox));
        },
    }
}

/// Bounds that every reported hit record obeys.
pub open spec fn rec_wf(rec: HitRecord, ray_t: crate::interval::Interval) -> bool {
    &&& abs_le(rec.p, crate::common::PMAX as int)
    &&& abs_le(rec.normal, 4096)
    &&& ray_t.min <= rec.t <= ray_t.max
    &&& 0 <= rec.u <= crate::common::SCALE
    &&& 0 <= rec.v <= crate::common::SCALE
}

/// The mirror of the polymorphic intersection test.
pub open spec fn hit_spec(h: Hittable, r: Ray, ray_t: crate::interval::Interval) -> Option<
    HitRecord,
>
    decreases h,
{
    match h {
        Hittable::Sphere(s) => crate::sphere::sphere_hit_spec(s, r, ray_t),
        Hittable::Quad(q) => crate::quad::quad_hit_spec(q, r, ray_t),
        Hittable::Translate(t) => {
            let ox = r.origin.x - t.offset.x;
            let oy = r.origin.y - t.offset.y;
            let oz = r.origin.z - t.offset.z;
            if ox > crate::common::OMAX || ox < -crate::common::OMAX
                || oy > crate::common::OMAX || oy < -crate::common::OMAX
                || oz > crate::common::OMAX || oz < -crate::common::OMAX {
                None
            } else {
                let sr = Ray {
                    origin: Vec3 { x: ox as i64, y: oy as i64, z: oz as i64 },
                    direction: r.direction,
                    time: r.time,
                };
                match hit_spec(*t.object, sr, ray_t) {
                    None => None,
                    Some(rec) => {
                        let px = rec.p.x + t.offset.x;
                        let py = rec.p.y + t.offset.y;
                        let pz = rec.p.z + t.offset.z;
                        if px > crate::common::PMAX || px < -crate::common::PMAX
                            || py > crate::common::PMAX || py < -crate::common::PMAX
                            || pz > crate::common::PMAX || pz < -crate::common::PMAX {
                            None
                        } else {
                            Some(HitRecord {
                                p: Vec3 { x: px as i64, y: py as i64, z: pz as i64 },
                                ..rec
                            })
                        }
                    },
                }
            }
        },
        Hittable::RotateY(ry) => {
            if !crate::aabb::slab_hit_spec(ry.bbox, r, ray_t) {
                None
            } else {
            let sc = ry.sin_theta;
            let cc = ry.cos_theta;
            let ox = (cc * r.origin.x - sc * r.origin.z) / 1024;
            let oz = (sc * r.origin.x + cc * r.origin.z) / 1024;
            let dx = (cc * r.direction.x - sc * r.direction.z) / 1024;
            let dz = (sc * r.direction.x + cc * r.direction.z) / 1024;
            if ox > crate::common::OMAX || ox < -crate::common::OMAX
                || oz > crate::common::OMAX || oz < -crate::common::OMAX
                || dx > crate::common::VMAX || dx < -crate::common::VMAX
                || dz > crate::common::VMAX || dz < -crate::common::VMAX {
                None
            } else {
                let sr = Ray {
                    origin: Vec3 { x: ox as i64, y: r.origin.y, z: oz as i64 },
                    direction: Vec3 { x: dx as i64, y: r.direction.y, z: dz as i64 },
                    time: r.time,
                };
                match hit_spec(*ry.object, sr, ray_t) {
                    None => None,
                    Some(rec) => {
                        let px = (cc * rec.p.x + sc * rec.p.z) / 1024;
                        let pz = (cc * rec.p.z - sc * rec.p.x) / 1024;
                        let nx = (cc * rec.normal.x + sc * rec.normal.z) / 1024;
                        let nz = (cc * rec.normal.z - sc * rec.normal.x) / 1024;
                        if px > crate::common::PMAX || px < -crate::common::PMAX
                            || pz > crate::common::PMAX || pz < -crate::common::PMAX
                            || nx > 4096 || nx < -4096 || nz > 4096 || nz < -4096 {
                            None
                        } else {
                            Some(HitRecord {
                                p: Vec3 { x: px as i64, y: rec.p.y, z: pz as i64 },
                                normal: Vec3 { x: nx as i64, y: rec.normal.y, z: nz as i64 },
                                ..rec
                            })
                        }
                    },
                }
            }
            }
        },
        Hittable::List(l) => crate::hittable_list::list_hit_spec(l, r, ray_t),
        Hittable::Node(n) => crate::bvh::node_hit_spec(n, r, ray_t),
    }
}

impl Hittable {
    pub fn bounding_box(&self) -> (b: crate::aabb::AABB)
        ensures
            b == bbox_of(*self),
    {
        match self {
            Hittable::Sphere(s) => s.bbox,
            Hittable::Quad(q) => q.bbox,
            Hittable::Translate(t) => t.bbox,
            Hittable::RotateY(ry) => ry.bbox,
            Hittable::List(l) => l.bbox,
            Hittable::Node(n) => n.bbox,
        }
    }

    /// The polymorphic intersection test: dispatches to the variant and
    /// reports the record the mirror specification describes.
    pub fn hit(&self, r: &Ray, ray_t: crate::interval::Interval, rec: &mut HitRecord) -> (res:
        bool)
        requires
            wf(*self),
            crate::ray::ray_wf(*r),
            crate::interval::interval_wf(ray_t),
        ensures
            match hit_spec(*self, *r, ray_t) {
                Some(rr) => res && *final(rec) == rr,
                None => !res && *final(rec) == *old(rec),
            },
            res ==> rec_wf(*final(rec), ray_t),
        decreases *self,
    {
        match self {
            Hittable::Sphere(s) => s.hit(r, ray_t, rec),
            Hittable::Quad(q) => q.hit(r, ray_t, rec),
            Hittable::Translate(t) => {
                let ox = r.origin.x - t.offset.x;
                let oy = r.origin.y - t.offset.y;
                let oz = r.origin.z - t.offset.z;
                if ox > crate::common::OMAX || ox < -crate::common::OMAX
                    || oy > crate::common::OMAX || oy < -crate::common::OMAX
                    || oz > crate::common::OMAX || oz < -crate::common::OMAX {
                    return false;
                }
                let offset_r = Ray {
                    origin: Point3 { x: ox, y: oy, z: oz },
                    direction: r.direction,
                    time: r.time,
                };
                let saved: HitRecord = *rec;
                if !t.object.hit(&offset_r, ray_t, rec) {
                    return false;
                }
                let px = rec.p.x + t.offset.x;
                let py = rec.p.y + t.offset.y;
                let pz = rec.p.z + t.offset.z;
                if px > crate::common::PMAX || px < -crate::common::PMAX
                    || py > crate::common::PMAX || py < -crate::common::PMAX
                    || pz > crate::common::PMAX || pz < -crate::common::PMAX {
                    *rec = saved;
                    return false;
                }
                rec.p = Point3 { x: px, y: py, z: pz };
                true
            },
            Hittable::RotateY(ry) => {
                if !ry.bbox.hit(r, ray_t) {
                    return false;
                }
                let sc = ry.sin_theta;
                let cc = ry.cos_theta;
                proof {
                    crate::common::lemma_abs_mul_le(cc as int, r.origin.x as int, 1024,
                        crate::common::OMAX as int);
                    crate::common::lemma_abs_mul_le(sc as int, r.origin.z as int, 1024,
                        crate::common::OMAX as int);
                    crate::common::lemma_abs_mul_le(sc as int, r.origin.x as int, 1024,
                        crate::common::OMAX as int);
                    crate::common::lemma_abs_mul_le(cc as int, r.origin.z as int, 1024,
                        crate::common::OMAX as int);
                    crate::common::lemma_abs_mul_le(cc as int, r.direction.x as int, 1024,
                        crate::common::VMAX as int);
                    crate::common::lemma_abs_mul_le(sc as int, r.direction.z as int, 1024,
                        crate::common::VMAX as int);
                    crate::common::lemma_abs_mul_le(sc as int, r.direction.x as int, 1024,
                        crate::common::VMAX as int);
                    crate::common::lemma_abs_mul_le(cc as int, r.direction.z as int, 1024,
                        crate::common::VMAX as int);
                }
                let ox = crate::common::div_fl(
                    (cc as i128) * (r.origin.x as i128) - (sc as i128) * (r.origin.z as i128),
                    1024);
                let oz = crate::common::div_fl(
                    (sc as i128) * (r.origin.x as i128) + (cc as i128) * (r.origin.z as i128),
                    1024);
                let dx = crate::common::div_fl(
                    (cc as i128) * (r.direction.x as i128)
                        - (sc as i128) * (r.direction.z as i128), 1024);
                let dz = crate::common::div_fl(
                    (sc as i128) * (r.direction.x as i128)
                        + (cc as i128) * (r.direction.z as i128), 1024);
                proof {
                    crate::common::lemma_div_le_of(
                        cc as int * r.origin.x as int - sc as int * r.origin.z as int,
                        0x1_0000_0000_0000, 1024);
                    crate::common::lemma_div_ge_of(
                        cc as int * r.origin.x as int - sc as int * r.origin.z as int,
                        -0x1_0000_0000_0000, 1024);
                    crate::common::lemma_div_le_of(
                        sc as int * r.origin.x as int + cc as int * r.origin.z as int,
                        0x1_0000_0000_0000, 1024);
                    crate::common::lemma_div_ge_of(
                        sc as int * r.origin.x as int + cc as int * r.origin.z as int,
                        -0x1_0000_0000_0000, 1024);
                    crate::common::lemma_div_le_of(
                        cc as int * r.direction.x as int - sc as int * r.direction.z as int,
                        0x10_0000_0000, 1024);
                    crate::common::lemma_div_ge_of(
                        cc as int * r.direction.x as int - sc as int * r.direction.z as int,
                        -0x10_0000_0000, 1024);
                    crate::common::lemma_div_le_of(
                        sc as int * r.direction.x as int + cc as int * r.direction.z as int,
                        0x10_0000_0000, 1024);
                    crate::common::lemma_div_ge_of(
                        sc as int * r.direction.x as int + cc as int * r.direction.z as int,
                        -0x10_0000_0000, 1024);
                }
                let ox = ox as i64;
                let oz = oz as i64;
                let dx = dx as i64;
                let dz = dz as i64;
                if ox > crate::common::OMAX || ox < -crate::common::OMAX
                    || oz > crate::common::OMAX || oz < -crate::common::OMAX
                    || dx > crate::common::VMAX || dx < -crate::common::VMAX
                    || dz > crate::common::VMAX || dz < -crate::common::VMAX {
                    return false;
                }
                let rotated_r = Ray {
                    origin: Point3 { x: ox, y: r.origin.y, z: oz },
                    direction: Vec3 { x: dx, y: r.direction.y, z: dz },
                    time: r.time,
                };
                let saved: HitRecord = *rec;
                if !ry.object.hit(&rotated_r, ray_t, rec) {
                    return false;
                }
                proof {
                    crate::common::lemma_abs_mul_le(cc as int, rec.p.x as int, 1024,
                        crate::common::PMAX as int);
                    crate::common::lemma_abs_mul_le(sc as int, rec.p.z as int, 1024,
                        crate::common::PMAX as int);
                    crate::common::lemma_abs_mul_le(sc as int, rec.p.x as int, 1024,
                        crate::common::PMAX as int);
                    crate::common::lemma_abs_mul_le(cc as int, rec.p.z as int, 1024,
                        crate::common::PMAX as int);
                    crate::common::lemma_abs_mul_le(cc as int, rec.normal.x as int, 1024, 4096);
                    crate::common::lemma_abs_mul_le(sc as int, rec.normal.z as int, 1024, 4096);
                    crate::common::lemma_abs_mul_le(sc as int, rec.normal.x as int, 1024, 4096);
                    crate::common::lemma_abs_mul_le(cc as int, rec.normal.z as int, 1024, 4096);
                    crate::common::lemma_div_le_of(
                        cc as int * rec.p.x as int + sc as int * rec.p.z as int,
                        0x8000_0000_0000, 1024);
                    crate::common::lemma_div_ge_of(
                        cc as int * rec.p.x as int + sc as int * rec.p.z as int,
                        -0x8000_0000_0000, 1024);
                    crate::common::lemma_div_le_of(
                        cc as int * rec.p.z as int - sc as int * rec.p.x as int,
                        0x8000_0000_0000, 1024);
                    crate::common::lemma_div_ge_of(
                        cc as int * rec.p.z as int - sc as int * rec.p.x as int,
                        -0x8000_0000_0000, 1024);
                    crate::common::lemma_div_le_of(
                        cc as int * rec.normal.x as int + sc as int * rec.normal.z as int,
                        0x80_0000, 1024);
                    crate::common::lemma_div_ge_of(
                        cc as int * rec.normal.x as int + sc as int * rec.normal.z as int,
                        -0x80_0000, 1024);
                    crate::common::lemma_div_le_of(
                        cc as int * rec.normal.z as int - sc as int * rec.normal.x as int,
                        0x80_0000, 1024);
                    crate::common::lemma_div_ge_of(
                        cc as int * rec.normal.z as int - sc as int * rec.normal.x as int,
                        -0x80_0000, 1024);
                }
                let px = crate::common::div_fl(
                    (cc as i128) * (rec.p.x as i128) + (sc as i128) * (rec.p.z as i128),
                    1024) as i64;
                let pz = crate::common::div_fl(
                    (cc as i128) * (rec.p.z as i128) - (sc as i128) * (rec.p.x as i128),
                    1024) as i64;
                let nx = crate::common::div_fl(
                    (cc as i128) * (rec.normal.x as i128) + (sc as i128) * (rec.normal.z as i128),
                    1024) as i64;
                let nz = crate::common::div_fl(
                    (cc as i128) * (rec.normal.z as i128) - (sc as i128) * (rec.normal.x as i128),
                    1024) as i64;
                if px > crate::common::PMAX || px < -crate::common::PMAX
                    || pz > crate::common::PMAX || pz < -crate::common::PMAX
                    || nx > 4096 || nx < -4096 || nz > 4096 || nz < -4096 {
                    *rec = saved;
                    return false;
                }
                rec.p = Point3 { x: px, y: rec.p.y, z: pz };
                rec.normal = Vec3 { x: nx, y: rec.normal.y, z: nz };
                true
            },
            Hittable::List(l) => l.hit(r, ray_t, rec),
            Hittable::Node(n) => n.hit(r, ray_t, rec),
        }
    }
}

/// The primitive sequence of a tree: hierarchy nodes flatten to their
/// children's sequences, anything else stands for itself.
pub open spec fn elems(h: Hittable) -> Seq<Hittable>
    decreases h,
{
    match h {
        Hittable::Node(n) => elems(*n.left) + elems(*n.right),
        _ => seq![h],
    }
}

/// The concatenation of the primitive sequences of a run of objects.
pub open spec fn flat_elems(objs: Seq<Hittable>) -> Seq<Hittable>
    decreases objs,
{
    if objs.len() == 0 {
        Seq::empty()
    } else {
        flat_elems(objs.drop_last()) + elems(objs[objs.len() - 1])
    }
}

/// Flattening distributes over concatenation.
pub proof fn lemma_flat_append(s1: Seq<Hittable>, s2: Seq<Hittable>)
    ensures
        flat_elems(s1 + s2) =~= flat_elems(s1) + flat_elems(s2),
    decreases s2.len(),
{
    if s2.len() == 0 {
        assert(s1 + s2 =~= s1);
        assert(flat_elems(s2) =~= Seq::<Hittable>::empty());
    } else {
        let s2p = s2.drop_last();
        assert((s1 + s2).drop_last() =~= s1 + s2p);
        assert((s1 + s2)[(s1 + s2).len() - 1] == s2[s2.len() - 1]);
        lemma_flat_append(s1, s2p);
        assert(flat_elems(s1 + s2) =~= (flat_elems(s1) + flat_elems(s2p))
            + elems(s2[s2.len() - 1]));
        assert((flat_elems(s1) + flat_elems(s2p)) + elems(s2[s2.len() - 1])
            =~= flat_elems(s1) + (flat_elems(s2p) + elems(s2[s2.len() - 1])));
    }
}

/// Flattening a single object gives its own primitive sequence.
pub proof fn lemma_flat_singleton(h: Hittable)
    ensures
        flat_elems(seq![h]) =~= elems(h),
{
    assert(seq![h].drop_last() =~= Seq::<Hittable>::empty());
    assert(flat_elems(Seq::<Hittable>::empty()) =~= Seq::<Hittable>::empty());
    assert(seq![h][0] == h);
    assert(flat_elems(seq![h]) =~= flat_elems(seq![h].drop_last()) + elems(h));
    assert(Seq::<Hittable>::empty() + elems(h) =~= elems(h));
}

/// Removing an object moves exactly its primitives out of the flattening.
pub proof fn lemma_flat_remove(s: Seq<Hittable>, i: int)
    requires
        0 <= i < s.len(),
    ensures
        flat_elems(s).to_multiset() =~= flat_elems(s.remove(i)).to_multiset().add(
            elems(s[i]).to_multiset()),
{
    broadcast use vstd::seq_lib::lemma_multiset_commutative;

    let a = s.subrange(0, i);
    let b = s.subrange(i + 1, s.len() as int);
    assert(s =~= (a + seq![s[i]]) + b);
    assert(s.remove(i) =~= a + b);
    lemma_flat_append(a + seq![s[i]], b);
    lemma_flat_append(a, seq![s[i]]);
    lemma_flat_append(a, b);
    lemma_flat_singleton(s[i]);
    assert(flat_elems(s).to_multiset() =~= ((flat_elems(a) + elems(s[i]))
        + flat_elems(b)).to_multiset());
    assert(flat_elems(s.remove(i)).to_multiset() =~= (flat_elems(a)
        + flat_elems(b)).to_multiset());
}

/// Soundness of box pruning: whatever a well-formed object reports within
/// `ray_t`, its stored box's slab test succeeds on the same interval.
pub proof fn lemma_cover(h: Hittable, r: Ray, ray_t: crate::interval::Interval)
    requires
        wf(h),
        crate::ray::ray_wf(r),
        crate::interval::interval_wf(ray_t),
        hit_spec(h, r, ray_t) is Some,
    ensures
        crate::aabb::slab_hit_spec(bbox_of(h), r, ray_t),
    decreases h,
{
    match h {
        Hittable::Sphere(s) => {
            assert(crate::sphere::sphere_hit_spec(s, r, ray_t) is Some);
            crate::sphere::lemma_sphere_cover(s, r, ray_t);
            assert(bbox_of(h) == s.bbox);
        },
        Hittable::Quad(q) => {
            assert(crate::quad::quad_hit_spec(q, r, ray_t) is Some);
            assert(crate::aabb::slab_hit_spec(q.bbox, r, ray_t));
        },
        Hittable::Translate(t) => {
            let sr = Ray {
                origin: Vec3 {
                    x: (r.origin.x - t.offset.x) as i64,
                    y: (r.origin.y - t.offset.y) as i64,
                    z: (r.origin.z - t.offset.z) as i64,
                },
                direction: r.direction,
                time: r.time,
            };
            lemma_cover(*t.object, sr, ray_t);
            let (tn, td) = choose|tn: int, td: int| crate::aabb::slab_witness(
                bbox_of(*t.object), sr, ray_t, tn, td);
            assert(crate::aabb::slab_witness(bbox_of(h), r, ray_t, tn, td));
        },
        Hittable::RotateY(ry) => {
            assert(crate::aabb::slab_hit_spec(ry.bbox, r, ray_t));
        },
        Hittable::List(l) => {
            assert(crate::hittable_list::list_hit_spec(l, r, ray_t) is Some);
            assert(crate::aabb::slab_hit_spec(l.bbox, r, ray_t));
        },
        Hittable::Node(n) => {
            assert(crate::bvh::node_hit_spec(n, r, ray_t) is Some);
            assert(crate::aabb::slab_hit_spec(n.bbox, r, ray_t));
        },
    }
}

/// A bigger box passes the slab test whenever a contained one does.
pub proof fn lemma_slab_box_monotone(inner: crate::aabb::AABB, outer: crate::aabb::AABB,
    r: Ray, ray_t: crate::interval::Interval)
    requires
        box_contains(outer, inner),
        crate::aabb::slab_hit_spec(inner, r, ray_t),
    ensures
        crate::aabb::slab_hit_spec(outer, r, ray_t),
{
    let (tn, td) = choose|tn: int, td: int| crate::aabb::slab_witness(inner, r, ray_t, tn,
        td);
    assert(((outer.x.min - r.origin.x) * crate::common::SCALE) * td
        <= ((inner.x.min - r.origin.x) * crate::common::SCALE) * td
        && ((inner.x.max - r.origin.x) * crate::common::SCALE) * td
        <= ((outer.x.max - r.origin.x) * crate::common::SCALE) * td) by (nonlinear_arith)
        requires
            td > 0,
            outer.x.min <= inner.x.min,
            inner.x.max <= outer.x.max,
    ;
    assert(((outer.y.min - r.origin.y) * crate::common::SCALE) * td
        <= ((inner.y.min - r.origin.y) * crate::common::SCALE) * td
        && ((inner.y.max - r.origin.y) * crate::common::SCALE) * td
        <= ((outer.y.max - r.origin.y) * crate::common::SCALE) * td) by (nonlinear_arith)
        requires
            td > 0,
            outer.y.min <= inner.y.min,
            inner.y.max <= outer.y.max,
    ;
    assert(((outer.z.min - r.origin.z) * crate::common::SCALE) * td
        <= ((inner.z.min - r.origin.z) * crate::common::SCALE) * td
        && ((inner.z.max - r.origin.z) * crate::common::SCALE) * td
        <= ((outer.z.max - r.origin.z) * crate::common::SCALE) * td) by (nonlinear_arith)
        requires
            td > 0,
            outer.z.min <= inner.z.min,
            inner.z.max <= outer.z.max,
    ;
    assert(crate::aabb::slab_witness(outer, r, ray_t, tn, td));
}

/// If the ray misses a box that holds the object's box, the object reports
/// nothing.
pub proof fn lemma_box_miss(h: Hittable, r: Ray, ray_t: crate::interval::Interval,
    outer: crate::aabb::AABB)
    requires
        wf(h),
        crate::ray::ray_wf(r),
        crate::interval::interval_wf(ray_t),
        box_contains(outer, bbox_of(h)),
        !crate::aabb::slab_hit_spec(outer, r, ray_t),
    ensures
        hit_spec(h, r, ray_t) is None,
{
    if hit_spec(h, r, ray_t) is Some {
        lemma_cover(h, r, ray_t);
        lemma_slab_box_monotone(bbox_of(h), outer, r, ray_t);
        assert(false);
    }
}

/// A reported parameter always lies within the query interval.
pub proof fn lemma_hit_t_in_range(h: Hittable, r: Ray, ray_t: crate::interval::Interval)
    requires
        wf(h),
        crate::ray::ray_wf(r),
        crate::interval::interval_wf(ray_t),
    ensures
        match hit_spec(h, r, ray_t) {
            Some(rec) => ray_t.min <= rec.t <= ray_t.max,
            None => true,
        },
    decreases h,
{
    match h {
        Hittable::Sphere(s) => {
            if hit_spec(h, r, ray_t) is Some {
                let c = crate::sphere::sphere_center_spec(s, r.time as int);
                let ocx = r.origin.x - c.x;
                let ocy = r.origin.y - c.y;
                let ocz = r.origin.z - c.z;
                let a = r.direction.x * r.direction.x + r.direction.y * r.direction.y
                    + r.direction.z * r.direction.z;
                let hb = ocx * r.direction.x + ocy * r.direction.y + ocz * r.direction.z;
                let c0 = ocx * ocx + ocy * ocy + ocz * ocz - s.radius * s.radius;
                let disc = hb * hb - a * c0;
                assert(!(a == 0 || disc < 0));
                assert(a > 0) by (nonlinear_arith)
                    requires
                        a == r.direction.x * r.direction.x + r.direction.y * r.direction.y
                            + r.direction.z * r.direction.z,
                        a != 0,
                ;
                let sq = crate::common::sqrt_floor(disc);
                let tq = if crate::sphere::root_in(ray_t, -hb - sq, a) {
                    -hb - sq
                } else {
                    -hb + sq
                };
                assert(crate::sphere::root_in(ray_t, tq, a));
                crate::common::lemma_div_ge_of(tq * 1024, ray_t.min as int, a);
                crate::common::lemma_div_le_of(tq * 1024, ray_t.max as int, a);
                assert(hit_spec(h, r, ray_t)
                    == Some(crate::sphere::sphere_rec_spec(s, r, c, a, tq)));
                assert(crate::sphere::sphere_rec_spec(s, r, c, a, tq).t
                    == ((tq * 1024) / a) as i64);
            }
        },
        Hittable::Quad(q) => {
            if hit_spec(h, r, ray_t) is Some {
                let den = crate::vec3::dot_spec(q.n, r.direction);
                let tnum = q.d - crate::vec3::dot_spec(q.n, r.origin);
                let pn = if den > 0 { tnum * 1024 } else { -(tnum * 1024) };
                let pd = if den > 0 { den } else { -den };
                assert(den != 0);
                assert(ray_t.min * pd <= pn && pn <= ray_t.max * pd);
                crate::common::lemma_div_ge_of(pn, ray_t.min as int, pd);
                crate::common::lemma_div_le_of(pn, ray_t.max as int, pd);
            }
        },
        Hittable::Translate(t) => {
            let sr = Ray {
                origin: Vec3 {
                    x: (r.origin.x - t.offset.x) as i64,
                    y: (r.origin.y - t.offset.y) as i64,
                    z: (r.origin.z - t.offset.z) as i64,
                },
                direction: r.direction,
                time: r.time,
            };
            match hit_spec(h, r, ray_t) {
                Some(rec) => {
                    lemma_hit_t_in_range(*t.object, sr, ray_t);
                    assert(ray_t.min <= rec.t <= ray_t.max);
                },
                None => {},
            }
        },
        Hittable::RotateY(ry) => {
            match hit_spec(h, r, ray_t) {
                Some(rec) => {
                    let sc = ry.sin_theta;
                    let cc = ry.cos_theta;
                    let sr = Ray {
                        origin: Vec3 {
                            x: ((cc * r.origin.x - sc * r.origin.z) / 1024) as i64,
                            y: r.origin.y,
                            z: ((sc * r.origin.x + cc * r.origin.z) / 1024) as i64,
                        },
                        direction: Vec3 {
                            x: ((cc * r.direction.x - sc * r.direction.z) / 1024) as i64,
                            y: r.direction.y,
                            z: ((sc * r.direction.x + cc * r.direction.z) / 1024) as i64,
                        },
                        time: r.time,
                    };
                    lemma_hit_t_in_range(*ry.object, sr, ray_t);
                    assert(ray_t.min <= rec.t <= ray_t.max);
                },
                None => {},
            }
        },
        Hittable::List(l) => {
            assert(hit_spec(h, r, ray_t) == crate::hittable_list::list_hit_spec(l, r, ray_t));
            crate::hittable_list::lemma_fold_t_in_range(l.objects@, r, ray_t);
            if crate::aabb::slab_hit_spec(l.bbox, r, ray_t) {
                assert(crate::hittable_list::list_hit_spec(l, r, ray_t)
                    == crate::hittable_list::list_fold_spec(l.objects@, r, ray_t));
            } else {
                assert(crate::hittable_list::list_hit_spec(l, r, ray_t) is None);
            }
        },
        Hittable::Node(n) => {
            assert(crate::bvh::node_wf(n));
            assert(hit_spec(h, r, ray_t) == crate::bvh::node_hit_spec(n, r, ray_t));
            lemma_hit_t_in_range(*n.left, r, ray_t);
            let left = hit_spec(*n.left, r, ray_t);
            let lim = match left {
                Some(rec) => rec.t,
                None => ray_t.max,
            };
            let narrowed = crate::interval::Interval { min: ray_t.min, max: lim };
            assert(crate::interval::interval_wf(narrowed));
            lemma_hit_t_in_range(*n.right, r, narrowed);
        },
    }
}

/// Every primitive of a well-formed tree is well-formed and its box sits
/// inside the tree's box.
pub proof fn lemma_elems_props(h: Hittable)
    requires
        wf(h),
    ensures
        forall|i: int| 0 <= i < elems(h).len() ==> wf(#[trigger] elems(h)[i]),
        forall|i: int| 0 <= i < elems(h).len() ==> box_contains(bbox_of(h),
            bbox_of(#[trigger] elems(h)[i])),
    decreases h,
{
    match h {
        Hittable::Node(n) => {
            assert(crate::bvh::node_wf(n));
            lemma_elems_props(*n.left);
            lemma_elems_props(*n.right);
            assert forall|i: int| 0 <= i < elems(h).len() implies wf(#[trigger] elems(h)[i])
                && box_contains(bbox_of(h), bbox_of(elems(h)[i])) by {
                if i < elems(*n.left).len() {
                    assert(elems(h)[i] == elems(*n.left)[i]);
                } else {
                    assert(elems(h)[i] == elems(*n.right)[i - elems(*n.left).len()]);
                }
            }
        },
        _ => {
            assert(elems(h) =~= seq![h]);
        },
    }
}

/// The hierarchy traversal reports exactly what the brute-force narrowing
/// fold over its primitive sequence reports: pruned subtrees could not have
/// contributed, and the left-to-right narrowing matches the fold.
pub proof fn lemma_bvh_matches_brute_force(h: Hittable, r: Ray,
    ray_t: crate::interval::Interval)
    requires
        wf(h),
        crate::ray::ray_wf(r),
        crate::interval::interval_wf(ray_t),
    ensures
        hit_spec(h, r, ray_t) == crate::hittable_list::list_fold_spec(elems(h), r, ray_t),
    decreases h,
{
    match h {
        Hittable::Node(n) => {
            assert(crate::bvh::node_wf(n));
            assert(hit_spec(h, r, ray_t) == crate::bvh::node_hit_spec(n, r, ray_t));
            if !crate::aabb::slab_hit_spec(n.bbox, r, ray_t) {
                assert(crate::bvh::node_hit_spec(n, r, ray_t) is None);
                lemma_elems_props(h);
                crate::hittable_list::lemma_fold_all_miss(elems(h), r, ray_t, n.bbox);
            } else {
                lemma_bvh_matches_brute_force(*n.left, r, ray_t);
                lemma_hit_t_in_range(*n.left, r, ray_t);
                let left = hit_spec(*n.left, r, ray_t);
                let lim = match left {
                    Some(rec) => rec.t,
                    None => ray_t.max,
                };
                let narrowed = crate::interval::Interval { min: ray_t.min, max: lim };
                assert(crate::interval::interval_wf(narrowed));
                lemma_bvh_matches_brute_force(*n.right, r, narrowed);
                crate::hittable_list::lemma_fold_append(elems(*n.left), elems(*n.right), r,
                    ray_t);
                assert(elems(h) == elems(*n.left) + elems(*n.right));
                assert(crate::bvh::node_hit_spec(n, r, ray_t) == (
                    match hit_spec(*n.right, r, narrowed) {
                        Some(rr) => Some(rr),
                        None => left,
                    }));
                match left {
                    None => {
                        assert(narrowed == ray_t);
                        assert(crate::hittable_list::list_fold_spec(elems(*n.left), r, ray_t)
                            is None);
                        assert(crate::hittable_list::list_fold_spec(elems(h), r, ray_t)
                            == crate::hittable_list::list_fold_spec(elems(*n.right), r,
                                ray_t));
                        assert(hit_spec(*n.right, r, narrowed)
                            == crate::hittable_list::list_fold_spec(elems(*n.right), r,
                                ray_t));
                    },
                    Some(rec) => {
                        assert(crate::hittable_list::list_fold_spec(elems(*n.left), r, ray_t)
                            == Some(rec));
                        assert(narrowed == (crate::interval::Interval {
                            min: ray_t.min,
                            max: rec.t,
                        }));
                        assert(crate::hittable_list::list_fold_spec(elems(h), r, ray_t) == (
                            match crate::hittable_list::list_fold_spec(elems(*n.right), r,
                                narrowed) {
                                None => Some(rec),
                                Some(rr) => Some(rr),
                            }));
                        assert(hit_spec(*n.right, r, narrowed)
                            == crate::hittable_list::list_fold_spec(elems(*n.right), r,
                                narrowed));
                    },
                }
            }
        },
        _ => {
            let es = elems(h);
            assert(es =~= seq![h]);
            assert(es.drop_last() =~= Seq::<Hittable>::empty());
            assert(es[es.len() - 1] == h);
            let full = crate::interval::Interval { min: ray_t.min, max: ray_t.max };
            assert(full == ray_t);
            assert(crate::hittable_list::list_fold_spec(es.drop_last(), r, ray_t) is None);
            assert(crate::hittable_list::list_fold_spec(es, r, ray_t) == (
                match hit_spec(h, r, full) {
                    Some(rr) => Some(rr),
                    None => None::<HitRecord>,
                }));
        },
    }
}

} // verus!
