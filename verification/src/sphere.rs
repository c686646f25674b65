use vstd::prelude::*;

use crate::aabb::{box_union, box_wf, AABB};
use crate::common::{
    div_fl, isqrt, lemma_abs_mul_le, lemma_div_ge_of, lemma_div_le_of, mul_wide, sqrt_floor,
    PMAX, SCALE, VMAX,
};
use crate::hittable::HitRecord;
use crate::interval::{interval_wf, Interval};
use crate::ray::{ray_wf, Ray};
use crate::vec3::{abs_le, dot, dot_spec, in_range, Point3, Vec3};

verus! {

/// A sphere, optionally sweeping along `vector` during the shutter interval.
#[derive(Clone, Copy, Debug, PartialEq, Eq, Structural)]
pub struct Sphere {
    pub center: Point3,
    pub vector: Vec3,
    pub radius: i64,
    pub mat: usize,
    pub is_moving: bool,
    pub bbox: AABB,
}

/// The box around the sphere at one center position.
pub open spec fn sphere_box_at(c: Vec3, rad: i64) -> AABB {
    AABB {
        x: Interval { min: (c.x - rad) as i64, max: (c.x + rad) as i64 },
        y: Interval { min: (c.y - rad) as i64, max: (c.y + rad) as i64 },
        z: Interval { min: (c.z - rad) as i64, max: (c.z + rad) as i64 },
    }
}

pub open spec fn sphere_end_center(s: Sphere) -> Vec3 {
    Vec3 {
        x: (s.center.x + s.vector.x) as i64,
        y: (s.center.y + s.vector.y) as i64,
        z: (s.center.z + s.vector.z) as i64,
    }
}

pub open spec fn sphere_box_spec(s: Sphere) -> AABB {
    if s.is_moving {
        box_union(sphere_box_at(s.center, s.radius), sphere_box_at(sphere_end_center(s), s.radius))
    } else {
        sphere_box_at(s.center, s.radius)
    }
}

pub open spec fn sphere_wf(s: Sphere) -> bool {
    &&& in_range(s.center)
    &&& in_range(s.vector)
    &&& 0 < s.radius <= VMAX
    &&& s.bbox == sphere_box_spec(s)
}

/// The sphere's center at ray time `time` (raw, in `[0, SCALE]`),
/// interpolated along `vector`.
pub open spec fn sphere_center_spec(s: Sphere, time: int) -> Vec3 {
    if s.is_moving {
        Vec3 {
            x: (s.center.x + (s.vector.x * time) / 1024) as i64,
            y: (s.center.y + (s.vector.y * time) / 1024) as i64,
            z: (s.center.z + (s.vector.z * time) / 1024) as i64,
        }
    } else {
        s.center
    }
}

/// The raw root `tq * SCALE / a` lies within `ray_t` (inclusive).
pub open spec fn root_in(ray_t: Interval, tq: int, a: int) -> bool {
    ray_t.min * a <= tq * 1024 && tq * 1024 <= ray_t.max * a
}

/// The diamond angle of `(a, b)`: a piecewise-rational, monotone walk
/// around the circle that agrees with `atan2(a, b) * 2 / pi` on the axes,
/// in raw quarter turns (1024 per quarter), within `[0, 4096)`.
pub open spec fn diamond_spec(a: int, b: int) -> int {
    if a == 0 && b == 0 {
        0
    } else if a >= 0 && b >= 0 {
        (a * 1024) / (a + b)
    } else if a >= 0 && b < 0 {
        1024 + ((-b) * 1024) / (a - b)
    } else if a < 0 && b < 0 {
        2048 + ((-a) * 1024) / ((-a) + (-b))
    } else {
        3072 + (b * 1024) / (b - a)
    }
}

/// The azimuth coordinate of the spherical chart on the grid: the diamond
/// angle of `(-z, x)` shifted by half a turn, so the chart approximates
/// `(atan2(-z, x) + pi) / (2 pi)` and is exact on the axes.
pub open spec fn sphere_u_spec(x: int, z: int) -> int {
    ((diamond_spec(-z, x) + 2048) % 4096) / 4
}

/// The polar coordinate of the spherical chart on the grid: the diamond
/// angle of the xz radius against `-y`, approximating `acos(-y) / pi`;
/// exact at the poles and the equator.
pub open spec fn sphere_v_spec(x: int, y: int, z: int) -> int {
    diamond_spec(sqrt_floor(x * x + z * z), -y) / 2
}

/// The record reported for the accepted root numerator `tq` (denominator
/// `a`).  The outward normal is computed from the exact root, so it lies in
/// the closed unit ball; the hit point is placed at center plus the normal
/// scaled by the radius, which differs from walking the ray by the rounded
/// parameter only by grid rounding and keeps the point-normal identity
/// exact.
pub open spec fn sphere_rec_spec(s: Sphere, r: Ray, c: Vec3, a: int, tq: int) -> HitRecord {
    let t = (tq * 1024) / a;
    let ex = a * (r.origin.x - c.x) + tq * r.direction.x;
    let ey = a * (r.origin.y - c.y) + tq * r.direction.y;
    let ez = a * (r.origin.z - c.z) + tq * r.direction.z;
    let ox = (ex * 1024) / (a * s.radius);
    let oy = (ey * 1024) / (a * s.radius);
    let oz = (ez * 1024) / (a * s.radius);
    let front = r.direction.x * ox + r.direction.y * oy + r.direction.z * oz < 0;
    HitRecord {
        p: Vec3 {
            x: (c.x + (ox * s.radius) / 1024) as i64,
            y: (c.y + (oy * s.radius) / 1024) as i64,
            z: (c.z + (oz * s.radius) / 1024) as i64,
        },
        normal: Vec3 {
            x: (if front { ox } else { -ox }) as i64,
            y: (if front { oy } else { -oy }) as i64,
            z: (if front { oz } else { -oz }) as i64,
        },
        mat: s.mat,
        t: t as i64,
        u: sphere_u_spec(ox, oz) as i64,
        v: sphere_v_spec(ox, oy, oz) as i64,
        front_face: front,
    }
}

/// The exact mirror of the intersection routine: solve the quadratic, accept
/// the near root, then the far root, inclusively against `ray_t`.
pub open spec fn sphere_hit_spec(s: Sphere, r: Ray, ray_t: Interval) -> Option<HitRecord> {
    let c = sphere_center_spec(s, r.time as int);
    let ocx = r.origin.x - c.x;
    let ocy = r.origin.y - c.y;
    let ocz = r.origin.z - c.z;
    let a = r.direction.x * r.direction.x + r.direction.y * r.direction.y
        + r.direction.z * r.direction.z;
    let hb = ocx * r.direction.x + ocy * r.direction.y + ocz * r.direction.z;
    let c0 = ocx * ocx + ocy * ocy + ocz * ocz - s.radius * s.radius;
    let disc = hb * hb - a * c0;
    if a == 0 || disc < 0 {
        None
    } else {
        let sq = sqrt_floor(disc);
        if root_in(ray_t, -hb - sq, a) {
            Some(sphere_rec_spec(s, r, c, a, -hb - sq))
        } else if root_in(ray_t, -hb + sq, a) {
            Some(sphere_rec_spec(s, r, c, a, -hb + sq))
        } else {
            None
        }
    }
}

/// An accepted root of the quadratic keeps the exact intersection point
/// within the closed ball: componentwise, `|a * oc_i + tq * d_i| <= a * rad`.
pub proof fn lemma_sphere_root_bound(
    ocx: int, ocy: int, ocz: int, dx: int, dy: int, dz: int,
    rad: int, a: int, hb: int, c0: int, disc: int, sq: int, tq: int)
    requires
        a == dx * dx + dy * dy + dz * dz,
        hb == ocx * dx + ocy * dy + ocz * dz,
        c0 == ocx * ocx + ocy * ocy + ocz * ocz - rad * rad,
        disc == hb * hb - a * c0,
        a > 0,
        rad > 0,
        0 <= sq,
        sq * sq <= disc,
        tq == -hb - sq || tq == -hb + sq,
    ensures
        -(a * rad) <= a * ocx + tq * dx <= a * rad,
        -(a * rad) <= a * ocy + tq * dy <= a * rad,
        -(a * rad) <= a * ocz + tq * dz <= a * rad,
{
    let ex = a * ocx + tq * dx;
    let ey = a * ocy + tq * dy;
    let ez = a * ocz + tq * dz;
    let ux = a * ocx;
    let uy = a * ocy;
    let uz = a * ocz;
    let wx = tq * dx;
    let wy = tq * dy;
    let wz = tq * dz;
    assert((ux + wx) * (ux + wx) == ux * ux + 2 * (ux * wx) + wx * wx) by (nonlinear_arith);
    assert((uy + wy) * (uy + wy) == uy * uy + 2 * (uy * wy) + wy * wy) by (nonlinear_arith);
    assert((uz + wz) * (uz + wz) == uz * uz + 2 * (uz * wz) + wz * wz) by (nonlinear_arith);
    assert(ux * ux == a * a * (ocx * ocx)) by (nonlinear_arith)
        requires
            ux == a * ocx,
    ;
    assert(uy * uy == a * a * (ocy * ocy)) by (nonlinear_arith)
        requires
            uy == a * ocy,
    ;
    assert(uz * uz == a * a * (ocz * ocz)) by (nonlinear_arith)
        requires
            uz == a * ocz,
    ;
    assert(ux * wx == (a * tq) * (ocx * dx)) by (nonlinear_arith)
        requires
            ux == a * ocx,
            wx == tq * dx,
    ;
    assert(uy * wy == (a * tq) * (ocy * dy)) by (nonlinear_arith)
        requires
            uy == a * ocy,
            wy == tq * dy,
    ;
    assert(uz * wz == (a * tq) * (ocz * dz)) by (nonlinear_arith)
        requires
            uz == a * ocz,
            wz == tq * dz,
    ;
    assert(wx * wx == (tq * tq) * (dx * dx)) by (nonlinear_arith)
        requires
            wx == tq * dx,
    ;
    assert(wy * wy == (tq * tq) * (dy * dy)) by (nonlinear_arith)
        requires
            wy == tq * dy,
    ;
    assert(wz * wz == (tq * tq) * (dz * dz)) by (nonlinear_arith)
        requires
            wz == tq * dz,
    ;
    assert(a * a * (ocx * ocx) + a * a * (ocy * ocy) + a * a * (ocz * ocz)
        == a * a * (ocx * ocx + ocy * ocy + ocz * ocz)) by (nonlinear_arith);
    assert((a * tq) * (ocx * dx) + (a * tq) * (ocy * dy) + (a * tq) * (ocz * dz)
        == (a * tq) * hb) by (nonlinear_arith)
        requires
            hb == ocx * dx + ocy * dy + ocz * dz,
    ;
    assert((tq * tq) * (dx * dx) + (tq * tq) * (dy * dy) + (tq * tq) * (dz * dz)
        == (tq * tq) * a) by (nonlinear_arith)
        requires
            a == dx * dx + dy * dy + dz * dz,
    ;
    assert(ex * ex + ey * ey + ez * ez
        == a * a * (c0 + rad * rad) + 2 * ((a * tq) * hb) + (tq * tq) * a);
    assert(tq * tq + 2 * hb * tq == sq * sq - hb * hb) by (nonlinear_arith)
        requires
            tq == -hb - sq || tq == -hb + sq,
    ;
    assert(2 * ((a * tq) * hb) + (tq * tq) * a == a * (tq * tq + 2 * hb * tq))
        by (nonlinear_arith);
    assert(a * (tq * tq + 2 * hb * tq) == a * (sq * sq - hb * hb));
    assert(a * a * (c0 + rad * rad) == a * a * c0 + a * a * (rad * rad)) by (nonlinear_arith);
    assert(a * (sq * sq - hb * hb) == a * (sq * sq) - a * (hb * hb)) by (nonlinear_arith);
    assert(a * (hb * hb) - a * a * c0 == a * (hb * hb - a * c0)) by (nonlinear_arith);
    assert(ex * ex + ey * ey + ez * ez
        == a * a * (rad * rad) + (a * (sq * sq) - a * disc));
    assert(a * (sq * sq) - a * disc == a * (sq * sq - disc)) by (nonlinear_arith);
    assert(a * (sq * sq - disc) <= 0) by (nonlinear_arith)
        requires
            a > 0,
            sq * sq <= disc,
    ;
    assert(a * a * (rad * rad) == (a * rad) * (a * rad)) by (nonlinear_arith);
    assert(ey * ey >= 0 && ez * ez >= 0 && ex * ex >= 0) by (nonlinear_arith);
    assert(a * rad > 0) by (nonlinear_arith)
        requires
            a > 0,
            rad > 0,
    ;
    assert(-(a * rad) <= ex <= a * rad) by (nonlinear_arith)
        requires
            ex * ex <= (a * rad) * (a * rad),
            a * rad > 0,
    ;
    assert(-(a * rad) <= ey <= a * rad) by (nonlinear_arith)
        requires
            ey * ey <= (a * rad) * (a * rad),
            a * rad > 0,
    ;
    assert(-(a * rad) <= ez <= a * rad) by (nonlinear_arith)
        requires
            ez * ez <= (a * rad) * (a * rad),
            a * rad > 0,
    ;
}

/// The interpolation `(v * time) / SCALE` stays between `0` and `v`.
pub proof fn lemma_interp_in_hull(v: int, time: int)
    requires
        0 <= time <= 1024,
    ensures
        v >= 0 ==> 0 <= (v * time) / 1024 <= v,
        v < 0 ==> v <= (v * time) / 1024 <= 0,
{
    if v >= 0 {
        assert(0 <= v * time && v * time <= v * 1024) by (nonlinear_arith)
            requires
                v >= 0,
                0 <= time <= 1024,
        ;
        lemma_div_ge_of(v * time, 0, 1024);
        lemma_div_le_of(v * time, v, 1024);
    } else {
        assert(v * 1024 <= v * time && v * time <= 0) by (nonlinear_arith)
            requires
                v < 0,
                0 <= time <= 1024,
        ;
        lemma_div_ge_of(v * time, v, 1024);
        lemma_div_le_of(v * time, 0, 1024);
    }
}

/// Decides the diamond angle of `(a, b)`.
fn diamond(a: i64, b: i64) -> (r: i64)
    requires
        -0x10_0000 <= a <= 0x10_0000,
        -0x10_0000 <= b <= 0x10_0000,
    ensures
        r == diamond_spec(a as int, b as int),
        0 <= r < 4096,
        a >= 0 ==> r <= 2048,
{
    if a == 0 && b == 0 {
        0
    } else if a >= 0 && b >= 0 {
        proof {
            assert(0 <= a * 1024 && a * 1024 <= (a + b) * 1024) by (nonlinear_arith)
                requires
                    a >= 0,
                    b >= 0,
            ;
            lemma_div_ge_of(a as int * 1024, 0, a as int + b as int);
            lemma_div_le_of(a as int * 1024, 1024, a as int + b as int);
        }
        div_fl((a as i128) * 1024, (a + b) as i128) as i64
    } else if a >= 0 && b < 0 {
        proof {
            assert(0 <= (-b) * 1024 && (-b) * 1024 <= (a - b) * 1024) by (nonlinear_arith)
                requires
                    a >= 0,
                    b < 0,
            ;
            lemma_div_ge_of((-b) as int * 1024, 0, a as int - b as int);
            lemma_div_le_of((-b) as int * 1024, 1024, a as int - b as int);
        }
        1024 + div_fl(((-b) as i128) * 1024, (a - b) as i128) as i64
    } else if a < 0 && b < 0 {
        proof {
            assert(0 <= (-a) * 1024 && (-a) * 1024 <= ((-a) + (-b)) * 1024)
                by (nonlinear_arith)
                requires
                    a < 0,
                    b < 0,
            ;
            lemma_div_ge_of((-a) as int * 1024, 0, (-a) as int + (-b) as int);
            lemma_div_le_of((-a) as int * 1024, 1024, (-a) as int + (-b) as int);
        }
        2048 + div_fl(((-a) as i128) * 1024, ((-a) + (-b)) as i128) as i64
    } else {
        proof {
            assert(0 <= b * 1024 && b * 1024 <= (b - a) * 1024) by (nonlinear_arith)
                requires
                    a < 0,
                    b >= 0,
            ;
            lemma_div_ge_of(b as int * 1024, 0, b as int - a as int);
            lemma_div_le_of(b as int * 1024, 1024, b as int - a as int);
        }
        let q = div_fl((b as i128) * 1024, (b - a) as i128);
        proof {
            assert(q < 1024) by (nonlinear_arith)
                requires
                    ((b - a) as int) * q <= (b as int) * 1024,
                    a < 0,
                    b >= 0,
                    b - a > 0,
            ;
        }
        3072 + q as i64
    }
}

/// The spherical chart of the unit outward normal on the grid: the azimuth
/// from the diamond angle of `(-z, x)` and the polar arc from the diamond
/// angle of the xz radius against `-y`, approximating the charts
/// `(atan2(-z, x) + pi) / (2 pi)` and `acos(-y) / pi` (exact on the axes,
/// monotone in between).
pub fn get_sphere_uvw(p: &Point3) -> (r: Vec3)
    requires
        abs_le(*p, 1024),
    ensures
        r.x == sphere_u_spec(p.x as int, p.z as int),
        r.y == sphere_v_spec(p.x as int, p.y as int, p.z as int),
        r.z == 0,
        0 <= r.x <= 1024,
        0 <= r.y <= 1024,
{
    let du = diamond(-p.z, p.x);
    let u = ((du + 2048) % 4096) / 4;
    proof {
        lemma_abs_mul_le(p.x as int, p.x as int, 1024, 1024);
        lemma_abs_mul_le(p.z as int, p.z as int, 1024, 1024);
        assert((p.x as int) * (p.x as int) >= 0 && (p.z as int) * (p.z as int) >= 0)
            by (nonlinear_arith);
    }
    let rq = isqrt((p.x as i128) * (p.x as i128) + (p.z as i128) * (p.z as i128));
    proof {
        assert(rq <= 0x10_0000) by (nonlinear_arith)
            requires
                0 <= rq,
                rq * rq <= (p.x as int) * (p.x as int) + (p.z as int) * (p.z as int),
                (p.x as int) * (p.x as int) + (p.z as int) * (p.z as int) <= 0x20_0000,
        ;
    }
    let rxz = rq as i64;
    let dv = diamond(rxz, -p.y);
    let v = dv / 2;
    Vec3 { x: u, y: v, z: 0 }
}

impl Sphere {
    pub fn new_static(center: Point3, radius: i64, mat: usize) -> (s: Sphere)
        requires
            in_range(center),
            0 < radius <= VMAX,
        ensures
            sphere_wf(s),
            s.center == center,
            s.vector == (Vec3 { x: 0i64, y: 0i64, z: 0i64 }),
            s.radius == radius,
            s.mat == mat,
            !s.is_moving,
    {
        let rvec = Vec3 { x: radius, y: radius, z: radius };
        let lo = center.sub(&rvec);
        let hi = center.add(&rvec);
        Sphere {
            center,
            vector: Vec3 { x: 0, y: 0, z: 0 },
            radius,
            mat,
            is_moving: false,
            bbox: AABB::new(&lo, &hi),
        }
    }

    pub fn new_moving(center: Point3, end: Point3, radius: i64, mat: usize) -> (s: Sphere)
        requires
            in_range(center),
            in_range(end),
            crate::vec3::abs_le(
                Vec3 { x: (end.x - center.x) as i64, y: (end.y - center.y) as i64,
                    z: (end.z - center.z) as i64 },
                VMAX as int),
            0 < radius <= VMAX,
        ensures
            sphere_wf(s),
            s.center == center,
            s.vector.x == end.x - center.x,
            s.vector.y == end.y - center.y,
            s.vector.z == end.z - center.z,
            s.radius == radius,
            s.mat == mat,
            s.is_moving,
    {
        let rvec = Vec3 { x: radius, y: radius, z: radius };
        let lo1 = center.sub(&rvec);
        let hi1 = center.add(&rvec);
        let lo2 = end.sub(&rvec);
        let hi2 = end.add(&rvec);
        let bbox1 = AABB::new(&lo1, &hi1);
        let bbox2 = AABB::new(&lo2, &hi2);
        Sphere {
            center,
            vector: end.sub(&center),
            radius,
            mat,
            is_moving: true,
            bbox: bbox1.add(&bbox2),
        }
    }

    /// The center at ray time `time`; moving spheres interpolate along
    /// `vector`.
    pub fn center(&self, time: i64) -> (c: Point3)
        requires
            sphere_wf(*self),
            0 <= time <= SCALE,
        ensures
            c == sphere_center_spec(*self, time as int),
            abs_le(c, 2 * VMAX),
    {
        if self.is_moving {
            proof {
                lemma_interp_in_hull(self.vector.x as int, time as int);
                lemma_interp_in_hull(self.vector.y as int, time as int);
                lemma_interp_in_hull(self.vector.z as int, time as int);
            }
            let cx = (self.center.x as i128) + div_fl(
                (self.vector.x as i128) * (time as i128), 1024);
            let cy = (self.center.y as i128) + div_fl(
                (self.vector.y as i128) * (time as i128), 1024);
            let cz = (self.center.z as i128) + div_fl(
                (self.vector.z as i128) * (time as i128), 1024);
            Point3 { x: cx as i64, y: cy as i64, z: cz as i64 }
        } else {
            self.center
        }
    }

    pub fn bounding_box(&self) -> (b: AABB)
        ensures
            b == self.bbox,
    {
        self.bbox
    }

    /// Closed-form quadratic intersection; on success fills `rec` with the
    /// record that the mirror specification describes.
    pub fn hit(&self, r: &Ray, ray_t: Interval, rec: &mut HitRecord) -> (res: bool)
        requires
            sphere_wf(*self),
            ray_wf(*r),
            interval_wf(ray_t),
        ensures
            match sphere_hit_spec(*self, *r, ray_t) {
                Some(rr) => res && *final(rec) == rr,
                None => !res && *final(rec) == *old(rec),
            },
            res ==> {
                let rr = *final(rec);
                &&& abs_le(rr.p, PMAX as int)
                &&& abs_le(rr.normal, SCALE as int)
                &&& ray_t.min <= rr.t <= ray_t.max
                &&& 0 <= rr.u <= SCALE
                &&& 0 <= rr.v <= SCALE
                &&& rr.mat == self.mat
            },
    {
        let c = self.center(r.time);
        let ocx = (r.origin.x as i128) - (c.x as i128);
        let ocy = (r.origin.y as i128) - (c.y as i128);
        let ocz = (r.origin.z as i128) - (c.z as i128);
        let dx = r.direction.x as i128;
        let dy = r.direction.y as i128;
        let dz = r.direction.z as i128;
        let a = mul_wide(dx, dx) + mul_wide(dy, dy) + mul_wide(dz, dz);
        let hb = mul_wide(ocx, dx) + mul_wide(ocy, dy) + mul_wide(ocz, dz);
        let c0 = mul_wide(ocx, ocx) + mul_wide(ocy, ocy) + mul_wide(ocz, ocz)
            - mul_wide(self.radius as i128, self.radius as i128);
        proof {
            lemma_interp_center_bound(*self, r.time as int);
            assert(a >= 0 && a <= 0x300_0000_0000_0000) by (nonlinear_arith)
                requires
                    a == dx * dx + dy * dy + dz * dz,
                    -0x800_0000 <= dx <= 0x800_0000,
                    -0x800_0000 <= dy <= 0x800_0000,
                    -0x800_0000 <= dz <= 0x800_0000,
            ;
            lemma_abs_mul_le(ocx as int, dx as int, 0x9000_0000, 0x800_0000);
            lemma_abs_mul_le(ocy as int, dy as int, 0x9000_0000, 0x800_0000);
            lemma_abs_mul_le(ocz as int, dz as int, 0x9000_0000, 0x800_0000);
            lemma_abs_mul_le(ocx as int, ocx as int, 0x9000_0000, 0x9000_0000);
            lemma_abs_mul_le(ocy as int, ocy as int, 0x9000_0000, 0x9000_0000);
            lemma_abs_mul_le(ocz as int, ocz as int, 0x9000_0000, 0x9000_0000);
            lemma_abs_mul_le(self.radius as int, self.radius as int, 0x800_0000, 0x800_0000);
            lemma_abs_mul_le(hb as int, hb as int, 0xD80_0000_0000_0000, 0xD80_0000_0000_0000);
            lemma_abs_mul_le(a as int, c0 as int, 0x300_0000_0000_0000,
                0xF400_0000_0000_0000);
        }
        let disc = mul_wide(hb, hb) - a * c0;
        if a == 0 || disc < 0 {
            proof {
                assert(sphere_hit_spec(*self, *r, ray_t) is None);
            }
            return false;
        }
        let sq = isqrt(disc);
        let tq1 = -hb - sq;
        let tq2 = -hb + sq;

        let tq = if Self::root_accept(ray_t, tq1, a) {
            tq1
        } else if Self::root_accept(ray_t, tq2, a) {
            tq2
        } else {
            proof {
                assert(sphere_hit_spec(*self, *r, ray_t) is None);
            }
            return false;
        };

        proof {
            assert(sq <= 0x2000000000000000) by (nonlinear_arith)
                requires
                    0 <= sq,
                    sq * sq <= disc,
                    disc <= 0x4000000000000000000000000000000,
            ;
            lemma_sphere_root_bound(ocx as int, ocy as int, ocz as int, dx as int, dy as int,
                dz as int, self.radius as int, a as int, hb as int, c0 as int, disc as int,
                sq as int, tq as int);
            lemma_div_ge_of(tq as int * 1024, ray_t.min as int, a as int);
            lemma_div_le_of(tq as int * 1024, ray_t.max as int, a as int);
            lemma_abs_mul_le(a as int, ocx as int, 0x300_0000_0000_0000, 0x1_0000_0000);
            lemma_abs_mul_le(a as int, ocy as int, 0x300_0000_0000_0000, 0x1_0000_0000);
            lemma_abs_mul_le(a as int, ocz as int, 0x300_0000_0000_0000, 0x1_0000_0000);
            lemma_abs_mul_le(tq as int, dx as int, 0x4000_0000_0000_0000, 0x800_0000);
            lemma_abs_mul_le(tq as int, dy as int, 0x4000_0000_0000_0000, 0x800_0000);
            lemma_abs_mul_le(tq as int, dz as int, 0x4000_0000_0000_0000, 0x800_0000);
            lemma_abs_mul_le(a as int, self.radius as int, 0x300_0000_0000_0000, 0x800_0000);
        }
        let t = div_fl(tq * 1024, a);
        let ex = a * ocx + tq * dx;
        let ey = a * ocy + tq * dy;
        let ez = a * ocz + tq * dz;
        let ar = a * (self.radius as i128);
        proof {
            assert(ar > 0) by (nonlinear_arith)
                requires
                    ar == a * (self.radius as int),
                    a > 0,
                    self.radius > 0,
            ;
            // the root-bound lemma pins each quotient into [-SCALE, SCALE]
            assert(ex * 1024 <= ar * 1024 && ex * 1024 >= ar * (-1024)) by (nonlinear_arith)
                requires
                    -ar <= ex <= ar,
                    ar > 0,
            ;
            assert(ey * 1024 <= ar * 1024 && ey * 1024 >= ar * (-1024)) by (nonlinear_arith)
                requires
                    -ar <= ey <= ar,
                    ar > 0,
            ;
            assert(ez * 1024 <= ar * 1024 && ez * 1024 >= ar * (-1024)) by (nonlinear_arith)
                requires
                    -ar <= ez <= ar,
                    ar > 0,
            ;
            lemma_div_le_of(ex as int * 1024, 1024, ar as int);
            lemma_div_ge_of(ex as int * 1024, -1024, ar as int);
            lemma_div_le_of(ey as int * 1024, 1024, ar as int);
            lemma_div_ge_of(ey as int * 1024, -1024, ar as int);
            lemma_div_le_of(ez as int * 1024, 1024, ar as int);
            lemma_div_ge_of(ez as int * 1024, -1024, ar as int);
        }
        let ox = div_fl(ex * 1024, ar) as i64;
        let oy = div_fl(ey * 1024, ar) as i64;
        let oz = div_fl(ez * 1024, ar) as i64;
        let outward = Vec3 { x: ox, y: oy, z: oz };
        let uvw = get_sphere_uvw(&outward);
        let front = dot(&r.direction, &outward) < 0;
        proof {
            lemma_interp_center_bound(*self, r.time as int);
            lemma_abs_mul_le(ox as int, self.radius as int, 1024, 0x800_0000);
            lemma_abs_mul_le(oy as int, self.radius as int, 1024, 0x800_0000);
            lemma_abs_mul_le(oz as int, self.radius as int, 1024, 0x800_0000);
            lemma_div_le_of(ox as int * self.radius as int, 0x800_0000, 1024);
            lemma_div_ge_of(ox as int * self.radius as int, -0x800_0000, 1024);
            lemma_div_le_of(oy as int * self.radius as int, 0x800_0000, 1024);
            lemma_div_ge_of(oy as int * self.radius as int, -0x800_0000, 1024);
            lemma_div_le_of(oz as int * self.radius as int, 0x800_0000, 1024);
            lemma_div_ge_of(oz as int * self.radius as int, -0x800_0000, 1024);
        }
        let px = (c.x as i128) + div_fl((ox as i128) * (self.radius as i128), 1024);
        let py = (c.y as i128) + div_fl((oy as i128) * (self.radius as i128), 1024);
        let pz = (c.z as i128) + div_fl((oz as i128) * (self.radius as i128), 1024);
        *rec = HitRecord {
            p: Vec3 { x: px as i64, y: py as i64, z: pz as i64 },
            normal: if front {
                outward
            } else {
                Vec3 { x: -ox, y: -oy, z: -oz }
            },
            mat: self.mat,
            t: t as i64,
            u: uvw.x,
            v: uvw.y,
            front_face: front,
        };
        proof {
            let spec_rec = sphere_rec_spec(*self, *r, c, a as int, tq as int);
            assert(*rec == spec_rec);
        }
        true
    }

    /// The inclusive acceptance test for the root numerator `tq` over
    /// denominator `a`.
    fn root_accept(ray_t: Interval, tq: i128, a: i128) -> (res: bool)
        requires
            0 < a <= 0x300_0000_0000_0000,
            -0x8000_0000_0000_0000 <= tq <= 0x8000_0000_0000_0000,
            interval_wf(ray_t),
        ensures
            res == root_in(ray_t, tq as int, a as int),
    {
        proof {
            lemma_abs_mul_le(ray_t.min as int, a as int, crate::common::TMAX as int,
                0x300_0000_0000_0000);
            lemma_abs_mul_le(ray_t.max as int, a as int, crate::common::TMAX as int,
                0x300_0000_0000_0000);
        }
        (ray_t.min as i128) * a <= tq * 1024 && tq * 1024 <= (ray_t.max as i128) * a
    }
}

/// The interpolated center stays within twice the coordinate bound.
pub proof fn lemma_interp_center_bound(s: Sphere, time: int)
    requires
        sphere_wf(s),
        0 <= time <= 1024,
    ensures
        abs_le(sphere_center_spec(s, time), 2 * VMAX),
{
    lemma_interp_in_hull(s.vector.x as int, time);
    lemma_interp_in_hull(s.vector.y as int, time);
    lemma_interp_in_hull(s.vector.z as int, time);
}

/// Soundness of box pruning for spheres: any reported intersection in
/// `ray_t` makes the slab test of the sphere's stored box succeed, because
/// the exact root parameter is a witness inside the box on every axis.
pub proof fn lemma_sphere_cover(s: Sphere, r: Ray, ray_t: Interval)
    requires
        sphere_wf(s),
        ray_wf(r),
        sphere_hit_spec(s, r, ray_t) is Some,
    ensures
        crate::aabb::slab_hit_spec(s.bbox, r, ray_t),
{
    let c = sphere_center_spec(s, r.time as int);
    let ocx = r.origin.x - c.x;
    let ocy = r.origin.y - c.y;
    let ocz = r.origin.z - c.z;
    let dx = r.direction.x as int;
    let dy = r.direction.y as int;
    let dz = r.direction.z as int;
    let a = dx * dx + dy * dy + dz * dz;
    let hb = ocx * dx + ocy * dy + ocz * dz;
    let c0 = ocx * ocx + ocy * ocy + ocz * ocz - s.radius * s.radius;
    let disc = hb * hb - a * c0;
    assert(!(a == 0 || disc < 0));
    assert(a > 0) by (nonlinear_arith)
        requires
            a == dx * dx + dy * dy + dz * dz,
            a != 0,
    ;
    let sq = sqrt_floor(disc);
    let s0 = crate::common::lemma_sqrt_floor_exists(disc);
    crate::common::lemma_sqrt_floor_unique(disc, s0);
    let tq = if root_in(ray_t, -hb - sq, a) {
        -hb - sq
    } else {
        -hb + sq
    };
    assert(root_in(ray_t, tq, a));
    lemma_sphere_root_bound(ocx, ocy, ocz, dx, dy, dz, s.radius as int, a, hb, c0, disc, sq,
        tq);
    lemma_interp_in_hull(s.vector.x as int, r.time as int);
    lemma_interp_in_hull(s.vector.y as int, r.time as int);
    lemma_interp_in_hull(s.vector.z as int, r.time as int);
    assert(s.bbox.x.min <= c.x - s.radius && c.x + s.radius <= s.bbox.x.max);
    assert(s.bbox.y.min <= c.y - s.radius && c.y + s.radius <= s.bbox.y.max);
    assert(s.bbox.z.min <= c.z - s.radius && c.z + s.radius <= s.bbox.z.max);
    let tn = tq * 1024;
    let td = a;
    assert(((s.bbox.x.min - r.origin.x) * SCALE) * td <= tn * r.direction.x
        && tn * r.direction.x <= ((s.bbox.x.max - r.origin.x) * SCALE) * td)
        by (nonlinear_arith)
        requires
            SCALE == 1024,
            tn == tq * 1024,
            td == a,
            a > 0,
            s.bbox.x.min <= c.x - s.radius,
            c.x + s.radius <= s.bbox.x.max,
            -(a * s.radius) <= a * (r.origin.x - c.x) + tq * r.direction.x <= a * s.radius,
    ;
    assert(((s.bbox.y.min - r.origin.y) * SCALE) * td <= tn * r.direction.y
        && tn * r.direction.y <= ((s.bbox.y.max - r.origin.y) * SCALE) * td)
        by (nonlinear_arith)
        requires
            SCALE == 1024,
            tn == tq * 1024,
            td == a,
            a > 0,
            s.bbox.y.min <= c.y - s.radius,
            c.y + s.radius <= s.bbox.y.max,
            -(a * s.radius) <= a * (r.origin.y - c.y) + tq * r.direction.y <= a * s.radius,
    ;
    assert(((s.bbox.z.min - r.origin.z) * SCALE) * td <= tn * r.direction.z
        && tn * r.direction.z <= ((s.bbox.z.max - r.origin.z) * SCALE) * td)
        by (nonlinear_arith)
        requires
            SCALE == 1024,
            tn == tq * 1024,
            td == a,
            a > 0,
            s.bbox.z.min <= c.z - s.radius,
            c.z + s.radius <= s.bbox.z.max,
            -(a * s.radius) <= a * (r.origin.z - c.z) + tq * r.direction.z <= a * s.radius,
    ;
    assert(crate::aabb::slab_witness(s.bbox, r, ray_t, tn, td));
}

/// A tangent ray (zero discriminant) has exactly one candidate root: the
/// near and far roots coincide; and a negative discriminant is always a
/// miss.
pub proof fn lemma_sphere_root_cases(s: Sphere, r: Ray, ray_t: Interval)
    ensures
        ({
            let c = sphere_center_spec(s, r.time as int);
            let ocx = r.origin.x - c.x;
            let ocy = r.origin.y - c.y;
            let ocz = r.origin.z - c.z;
            let a = r.direction.x * r.direction.x + r.direction.y * r.direction.y
                + r.direction.z * r.direction.z;
            let hb = ocx * r.direction.x + ocy * r.direction.y + ocz * r.direction.z;
            let c0 = ocx * ocx + ocy * ocy + ocz * ocz - s.radius * s.radius;
            let disc = hb * hb - a * c0;
            &&& (disc == 0 ==> -hb - sqrt_floor(disc) == -hb + sqrt_floor(disc))
            &&& (disc < 0 || a == 0 ==> sphere_hit_spec(s, r, ray_t) is None)
        }),
{
    let c = sphere_center_spec(s, r.time as int);
    let ocx = r.origin.x - c.x;
    let ocy = r.origin.y - c.y;
    let ocz = r.origin.z - c.z;
    let a = r.direction.x * r.direction.x + r.direction.y * r.direction.y
        + r.direction.z * r.direction.z;
    let hb = ocx * r.direction.x + ocy * r.direction.y + ocz * r.direction.z;
    let c0 = ocx * ocx + ocy * ocy + ocz * ocz - s.radius * s.radius;
    let disc = hb * hb - a * c0;
    if disc == 0 {
        crate::common::lemma_sqrt_floor_unique(0, 0);
    }
}

/// The reported normal is parallel to (hit point minus current center) by
/// construction: each hit point coordinate is the center plus the outward
/// normal component scaled by the radius.
pub proof fn lemma_sphere_normal_parallel(s: Sphere, r: Ray, ray_t: Interval)
    requires
        sphere_wf(s),
        ray_wf(r),
        sphere_hit_spec(s, r, ray_t) is Some,
    ensures
        ({
            let rec = sphere_hit_spec(s, r, ray_t)->Some_0;
            let c = sphere_center_spec(s, r.time as int);
            let ox = if rec.front_face { rec.normal.x as int } else { -rec.normal.x };
            let oy = if rec.front_face { rec.normal.y as int } else { -rec.normal.y };
            let oz = if rec.front_face { rec.normal.z as int } else { -rec.normal.z };
            &&& rec.p.x == (c.x + (ox * s.radius) / 1024) as i64
            &&& rec.p.y == (c.y + (oy * s.radius) / 1024) as i64
            &&& rec.p.z == (c.z + (oz * s.radius) / 1024) as i64
        }),
{
    let c = sphere_center_spec(s, r.time as int);
    let ocx = r.origin.x - c.x;
    let ocy = r.origin.y - c.y;
    let ocz = r.origin.z - c.z;
    let dx = r.direction.x as int;
    let dy = r.direction.y as int;
    let dz = r.direction.z as int;
    let a = dx * dx + dy * dy + dz * dz;
    let hb = ocx * dx + ocy * dy + ocz * dz;
    let c0 = ocx * ocx + ocy * ocy + ocz * ocz - s.radius * s.radius;
    let disc = hb * hb - a * c0;
    assert(!(a == 0 || disc < 0));
    assert(a > 0) by (nonlinear_arith)
        requires
            a == dx * dx + dy * dy + dz * dz,
            a != 0,
    ;
    let sq = sqrt_floor(disc);
    let s0 = crate::common::lemma_sqrt_floor_exists(disc);
    crate::common::lemma_sqrt_floor_unique(disc, s0);
    let tq = if root_in(ray_t, -hb - sq, a) {
        -hb - sq
    } else {
        -hb + sq
    };
    lemma_sphere_root_bound(ocx, ocy, ocz, dx, dy, dz, s.radius as int, a, hb, c0, disc, sq,
        tq);
    let ar = a * s.radius;
    assert(ar > 0) by (nonlinear_arith)
        requires
            ar == a * s.radius,
            a > 0,
            s.radius > 0,
    ;
    let ex = a * ocx + tq * dx;
    let ey = a * ocy + tq * dy;
    let ez = a * ocz + tq * dz;
    assert(ex * 1024 <= ar * 1024 && ex * 1024 >= ar * (-1024) && ey * 1024 <= ar * 1024
        && ey * 1024 >= ar * (-1024) && ez * 1024 <= ar * 1024 && ez * 1024 >= ar * (-1024))
        by (nonlinear_arith)
        requires
            -ar <= ex <= ar,
            -ar <= ey <= ar,
            -ar <= ez <= ar,
            ar > 0,
    ;
    crate::common::lemma_div_le_of(ex * 1024, 1024, ar);
    crate::common::lemma_div_ge_of(ex * 1024, -1024, ar);
    crate::common::lemma_div_le_of(ey * 1024, 1024, ar);
    crate::common::lemma_div_ge_of(ey * 1024, -1024, ar);
    crate::common::lemma_div_le_of(ez * 1024, 1024, ar);
    crate::common::lemma_div_ge_of(ez * 1024, -1024, ar);
}

} // verus!
