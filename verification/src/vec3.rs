use vstd::prelude::*;

use crate::common::{
    clamp_spec, div_fl, fxdiv, fxmul, isqrt, lemma_abs_mul_le, lemma_div_ge_of, lemma_div_le_of,
    lemma_sqrt_floor_unique, saturate, sqrt_floor, SCALE, VMAX,
};
use crate::rng::rand_range;

verus! {

/// A three-component vector of raw fixed-point values (see `common::SCALE`).
/// Depending on use it is a point, a direction or a color.
#[derive(Clone, Copy, Debug, PartialEq, Eq, Structural)]
pub struct Vec3 {
    pub x: i64,
    pub y: i64,
    pub z: i64,
}

pub type Point3 = Vec3;

pub type Color = Vec3;

/// Every component of `v` has magnitude at most `b`.
pub open spec fn abs_le(v: Vec3, b: int) -> bool {
    &&& -b <= v.x <= b
    &&& -b <= v.y <= b
    &&& -b <= v.z <= b
}

/// The coordinate bound every scene position, direction and radius obeys.
pub open spec fn in_range(v: Vec3) -> bool {
    abs_le(v, VMAX as int)
}

/// The exact inner product of the raw component values.
pub open spec fn dot_spec(u: Vec3, v: Vec3) -> int {
    u.x * v.x + u.y * v.y + u.z * v.z
}

/// A square is never negative, so neither is a sum of three of them.
pub proof fn lemma_dot_self_nonneg(v: Vec3)
    ensures
        dot_spec(v, v) >= 0,
{
    assert(v.x * v.x >= 0 && v.y * v.y >= 0 && v.z * v.z >= 0) by (nonlinear_arith);
}

/// Bound on an inner product of componentwise-bounded vectors.
pub proof fn lemma_dot_bound(u: Vec3, v: Vec3, bu: int, bv: int)
    requires
        abs_le(u, bu),
        abs_le(v, bv),
        0 <= bu,
        0 <= bv,
    ensures
        -3 * (bu * bv) <= dot_spec(u, v) <= 3 * (bu * bv),
{
    lemma_abs_mul_le(u.x as int, v.x as int, bu, bv);
    lemma_abs_mul_le(u.y as int, v.y as int, bu, bv);
    lemma_abs_mul_le(u.z as int, v.z as int, bu, bv);
}

impl Vec3 {
    pub fn zero() -> (r: Vec3)
        ensures
            r == (Vec3 { x: 0i64, y: 0i64, z: 0i64 }),
    {
        Vec3 { x: 0, y: 0, z: 0 }
    }

    pub fn one() -> (r: Vec3)
        ensures
            r == (Vec3 { x: SCALE, y: SCALE, z: SCALE }),
    {
        Vec3 { x: SCALE, y: SCALE, z: SCALE }
    }

    pub fn up() -> (r: Vec3)
        ensures
            r == (Vec3 { x: 0i64, y: SCALE, z: 0i64 }),
    {
        Vec3 { x: 0, y: SCALE, z: 0 }
    }

    pub fn new(x: i64, y: i64, z: i64) -> (r: Vec3)
        ensures
            r == (Vec3 { x, y, z }),
    {
        Vec3 { x, y, z }
    }

    /// Each component drawn from `[0, SCALE]`.
    pub fn random() -> (r: Vec3)
        ensures
            abs_le(r, SCALE as int),
            0 <= r.x && 0 <= r.y && 0 <= r.z,
    {
        Vec3 { x: rand_range(0, SCALE), y: rand_range(0, SCALE), z: rand_range(0, SCALE) }
    }

    /// Each component drawn from `[min, max]`.
    pub fn random_range(min: i64, max: i64) -> (r: Vec3)
        requires
            min <= max,
        ensures
            min <= r.x <= max && min <= r.y <= max && min <= r.z <= max,
    {
        Vec3 {
            x: rand_range(min, max),
            y: rand_range(min, max),
            z: rand_range(min, max),
        }
    }

    pub fn x(&self) -> (r: i64)
        ensures
            r == self.x,
    {
        self.x
    }

    pub fn y(&self) -> (r: i64)
        ensures
            r == self.y,
    {
        self.y
    }

    pub fn z(&self) -> (r: i64)
        ensures
            r == self.z,
    {
        self.z
    }

    pub fn set_x(&mut self, v: i64)
        ensures
            *final(self) == (Vec3 { x: v, ..*old(self) }),
    {
        self.x = v;
    }

    pub fn set_y(&mut self, v: i64)
        ensures
            *final(self) == (Vec3 { y: v, ..*old(self) }),
    {
        self.y = v;
    }

    pub fn set_z(&mut self, v: i64)
        ensures
            *final(self) == (Vec3 { z: v, ..*old(self) }),
    {
        self.z = v;
    }

    /// Componentwise sum.
    pub fn add(&self, o: &Vec3) -> (r: Vec3)
        requires
            abs_le(*self, 0x3FFF_FFFF_FFFF_FFFF),
            abs_le(*o, 0x3FFF_FFFF_FFFF_FFFF),
        ensures
            r.x == self.x + o.x,
            r.y == self.y + o.y,
            r.z == self.z + o.z,
    {
        Vec3 { x: self.x + o.x, y: self.y + o.y, z: self.z + o.z }
    }

    /// Componentwise difference.
    pub fn sub(&self, o: &Vec3) -> (r: Vec3)
        requires
            abs_le(*self, 0x3FFF_FFFF_FFFF_FFFF),
            abs_le(*o, 0x3FFF_FFFF_FFFF_FFFF),
        ensures
            r.x == self.x - o.x,
            r.y == self.y - o.y,
            r.z == self.z - o.z,
    {
        Vec3 { x: self.x - o.x, y: self.y - o.y, z: self.z - o.z }
    }

    /// Componentwise negation.
    pub fn neg(&self) -> (r: Vec3)
        requires
            abs_le(*self, 0x3FFF_FFFF_FFFF_FFFF),
        ensures
            r.x == -self.x,
            r.y == -self.y,
            r.z == -self.z,
    {
        Vec3 { x: -self.x, y: -self.y, z: -self.z }
    }

    /// Componentwise fixed-point product, the color-filter product.
    pub fn mul(&self, o: &Vec3) -> (r: Vec3)
        requires
            abs_le(*self, 0x10_0000_0000),
            abs_le(*o, 0x10_0000_0000),
        ensures
            r.x == (self.x * o.x) / (SCALE as int),
            r.y == (self.y * o.y) / (SCALE as int),
            r.z == (self.z * o.z) / (SCALE as int),
    {
        Vec3 { x: fxmul(self.x, o.x), y: fxmul(self.y, o.y), z: fxmul(self.z, o.z) }
    }

    /// Fixed-point product with the scalar `k`.
    pub fn scale(&self, k: i64) -> (r: Vec3)
        requires
            abs_le(*self, 0x10_0000_0000),
            -0x10_0000_0000 <= k <= 0x10_0000_0000,
        ensures
            r.x == (self.x * k) / (SCALE as int),
            r.y == (self.y * k) / (SCALE as int),
            r.z == (self.z * k) / (SCALE as int),
    {
        Vec3 { x: fxmul(self.x, k), y: fxmul(self.y, k), z: fxmul(self.z, k) }
    }

    /// Fixed-point quotient by the positive scalar `k`.
    pub fn div(&self, k: i64) -> (r: Vec3)
        requires
            k >= 1,
            abs_le(*self, 0x1_0000_0000_0000),
        ensures
            r.x == (self.x * SCALE) / (k as int),
            r.y == (self.y * SCALE) / (k as int),
            r.z == (self.z * SCALE) / (k as int),
    {
        Vec3 { x: fxdiv(self.x, k), y: fxdiv(self.y, k), z: fxdiv(self.z, k) }
    }

    /// The exact squared length of the raw components.
    pub fn length_squared(&self) -> (r: i64)
        requires
            abs_le(*self, 0x4000_0000),
        ensures
            r == dot_spec(*self, *self),
            r >= 0,
    {
        proof {
            lemma_dot_bound(*self, *self, 0x4000_0000, 0x4000_0000);
            lemma_dot_self_nonneg(*self);
            lemma_abs_mul_le(self.x as int, self.x as int, 0x4000_0000, 0x4000_0000);
            lemma_abs_mul_le(self.y as int, self.y as int, 0x4000_0000, 0x4000_0000);
            lemma_abs_mul_le(self.z as int, self.z as int, 0x4000_0000, 0x4000_0000);
        }
        let r = (self.x as i128) * (self.x as i128) + (self.y as i128) * (self.y as i128)
            + (self.z as i128) * (self.z as i128);
        r as i64
    }

    /// The length of the raw components, rounded down.
    pub fn length(&self) -> (r: i64)
        requires
            abs_le(*self, 0x4000_0000),
        ensures
            r == sqrt_floor(dot_spec(*self, *self)),
            r >= 0,
    {
        let ls = self.length_squared();
        let r = isqrt(ls as i128);
        proof {
            assert(r <= 0x1_0000_0000) by (nonlinear_arith)
                requires
                    0 <= r,
                    r * r <= ls,
                    ls <= 0x7FFF_FFFF_FFFF_FFFF,
            ;
        }
        r as i64
    }

    /// Rescales to a vector whose length is close to one unit; see `normalize`.
    pub fn normalize(&mut self)
        requires
            abs_le(*old(self), 0x4000_0000),
            dot_spec(*old(self), *old(self)) > 0,
        ensures
            *final(self) == normalize_spec(*old(self)),
            abs_le(*final(self), SCALE as int),
    {
        *self = normalize(*self);
    }

    /// Componentwise fixed-point square root (for color values).
    pub fn sqrt(&self) -> (r: Vec3)
        requires
            0 <= self.x <= 0x10_0000_0000,
            0 <= self.y <= 0x10_0000_0000,
            0 <= self.z <= 0x10_0000_0000,
        ensures
            r.x == sqrt_floor(self.x * SCALE),
            r.y == sqrt_floor(self.y * SCALE),
            r.z == sqrt_floor(self.z * SCALE),
    {
        let rx = isqrt((self.x as i128) * (SCALE as i128));
        let ry = isqrt((self.y as i128) * (SCALE as i128));
        let rz = isqrt((self.z as i128) * (SCALE as i128));
        proof {
            assert(rx <= 0x1_0000_0000 && ry <= 0x1_0000_0000 && rz <= 0x1_0000_0000)
                by (nonlinear_arith)
                requires
                    0 <= rx,
                    0 <= ry,
                    0 <= rz,
                    rx * rx <= (self.x as int) * SCALE,
                    ry * ry <= (self.y as int) * SCALE,
                    rz * rz <= (self.z as int) * SCALE,
                    self.x <= 0x10_0000_0000,
                    self.y <= 0x10_0000_0000,
                    self.z <= 0x10_0000_0000,
                    SCALE == 1024,
            ;
        }
        Vec3 { x: rx as i64, y: ry as i64, z: rz as i64 }
    }

    /// On this exact grid, "near zero" means exactly the zero vector.
    pub fn near_zero(&self) -> (r: bool)
        ensures
            r == (self.x == 0 && self.y == 0 && self.z == 0),
    {
        self.x == 0 && self.y == 0 && self.z == 0
    }
}

pub fn dot(u: &Vec3, v: &Vec3) -> (r: i64)
    requires
        abs_le(*u, 0x4000_0000),
        abs_le(*v, 0x4000_0000),
    ensures
        r == dot_spec(*u, *v),
{
    proof {
        lemma_dot_bound(*u, *v, 0x4000_0000, 0x4000_0000);
        lemma_abs_mul_le(u.x as int, v.x as int, 0x4000_0000, 0x4000_0000);
        lemma_abs_mul_le(u.y as int, v.y as int, 0x4000_0000, 0x4000_0000);
        lemma_abs_mul_le(u.z as int, v.z as int, 0x4000_0000, 0x4000_0000);
    }
    let r = (u.x as i128) * (v.x as i128) + (u.y as i128) * (v.y as i128)
        + (u.z as i128) * (v.z as i128);
    r as i64
}

/// The exact cross product of the raw components.
pub open spec fn cross_spec(u: Vec3, v: Vec3) -> (int, int, int) {
    (
        u.y * v.z - u.z * v.y,
        u.z * v.x - u.x * v.z,
        u.x * v.y - u.y * v.x,
    )
}

pub fn cross(u: &Vec3, v: &Vec3) -> (r: Vec3)
    requires
        abs_le(*u, 0x4000_0000),
        abs_le(*v, 0x4000_0000),
    ensures
        r.x == cross_spec(*u, *v).0,
        r.y == cross_spec(*u, *v).1,
        r.z == cross_spec(*u, *v).2,
        abs_le(r, 0x2000_0000_0000_0000),
{
    proof {
        lemma_abs_mul_le(u.y as int, v.z as int, 0x4000_0000, 0x4000_0000);
        lemma_abs_mul_le(u.z as int, v.y as int, 0x4000_0000, 0x4000_0000);
        lemma_abs_mul_le(u.z as int, v.x as int, 0x4000_0000, 0x4000_0000);
        lemma_abs_mul_le(u.x as int, v.z as int, 0x4000_0000, 0x4000_0000);
        lemma_abs_mul_le(u.x as int, v.y as int, 0x4000_0000, 0x4000_0000);
        lemma_abs_mul_le(u.y as int, v.x as int, 0x4000_0000, 0x4000_0000);
    }
    let rx = (u.y as i128) * (v.z as i128) - (u.z as i128) * (v.y as i128);
    let ry = (u.z as i128) * (v.x as i128) - (u.x as i128) * (v.z as i128);
    let rz = (u.x as i128) * (v.y as i128) - (u.y as i128) * (v.x as i128);
    Vec3 { x: rx as i64, y: ry as i64, z: rz as i64 }
}

/// The direction rescaled to (floor) unit length: each raw component becomes
/// `c * SCALE / length`.
pub open spec fn normalize_spec(v: Vec3) -> Vec3 {
    let len = sqrt_floor(dot_spec(v, v));
    Vec3 {
        x: ((v.x * SCALE) / len) as i64,
        y: ((v.y * SCALE) / len) as i64,
        z: ((v.z * SCALE) / len) as i64,
    }
}

/// Each component of a vector is bounded by the vector's floor length.
proof fn lemma_component_le_length(v: Vec3)
    ensures
        -sqrt_floor(dot_spec(v, v)) <= v.x <= sqrt_floor(dot_spec(v, v)),
        -sqrt_floor(dot_spec(v, v)) <= v.y <= sqrt_floor(dot_spec(v, v)),
        -sqrt_floor(dot_spec(v, v)) <= v.z <= sqrt_floor(dot_spec(v, v)),
{
    let n = dot_spec(v, v);
    lemma_dot_self_nonneg(v);
    let s = crate::common::lemma_sqrt_floor_exists(n);
    lemma_sqrt_floor_unique(n, s);
    assert(-s <= v.x <= s && -s <= v.y <= s && -s <= v.z <= s) by (nonlinear_arith)
        requires
            0 <= s,
            s * s <= n < (s + 1) * (s + 1),
            n == v.x * v.x + v.y * v.y + v.z * v.z,
    ;
}

pub fn normalize(v: Vec3) -> (r: Vec3)
    requires
        abs_le(v, 0x4000_0000),
        dot_spec(v, v) > 0,
    ensures
        r == normalize_spec(v),
        abs_le(r, SCALE as int),
{
    let l = v.length();
    proof {
        lemma_dot_self_nonneg(v);
        let s0 = crate::common::lemma_sqrt_floor_exists(dot_spec(v, v));
        lemma_sqrt_floor_unique(dot_spec(v, v), s0);
        lemma_component_le_length(v);
        assert(l >= 1) by (nonlinear_arith)
            requires
                l == sqrt_floor(dot_spec(v, v)),
                0 <= l,
                l * l <= dot_spec(v, v) < (l + 1) * (l + 1),
                dot_spec(v, v) > 0,
        ;
        assert(v.x * SCALE <= l * SCALE && v.x * SCALE >= -(l * SCALE)) by (nonlinear_arith)
            requires
                -l <= v.x <= l,
                SCALE == 1024,
        ;
        assert(v.y * SCALE <= l * SCALE && v.y * SCALE >= -(l * SCALE)) by (nonlinear_arith)
            requires
                -l <= v.y <= l,
                SCALE == 1024,
        ;
        assert(v.z * SCALE <= l * SCALE && v.z * SCALE >= -(l * SCALE)) by (nonlinear_arith)
            requires
                -l <= v.z <= l,
                SCALE == 1024,
        ;
        assert(l * SCALE == SCALE * l && -(l * SCALE) == (-SCALE) * l) by (nonlinear_arith);
        lemma_div_le_of(v.x * SCALE, SCALE as int, l as int);
        lemma_div_ge_of(v.x * SCALE, -(SCALE as int), l as int);
        lemma_div_le_of(v.y * SCALE, SCALE as int, l as int);
        lemma_div_ge_of(v.y * SCALE, -(SCALE as int), l as int);
        lemma_div_le_of(v.z * SCALE, SCALE as int, l as int);
        lemma_div_ge_of(v.z * SCALE, -(SCALE as int), l as int);
    }
    let rx = div_fl((v.x as i128) * (SCALE as i128), l as i128);
    let ry = div_fl((v.y as i128) * (SCALE as i128), l as i128);
    let rz = div_fl((v.z as i128) * (SCALE as i128), l as i128);
    Vec3 { x: rx as i64, y: ry as i64, z: rz as i64 }
}

/// The mirror reflection of `v` about the (near-unit) normal `n`:
/// `v - 2 (v.n) n`, with the fixed-point scale of `n` divided back out.
pub open spec fn reflect_spec(v: Vec3, n: Vec3) -> Vec3 {
    let d = dot_spec(v, n);
    Vec3 {
        x: (v.x - (2 * d * n.x) / (SCALE * SCALE)) as i64,
        y: (v.y - (2 * d * n.y) / (SCALE * SCALE)) as i64,
        z: (v.z - (2 * d * n.z) / (SCALE * SCALE)) as i64,
    }
}

pub fn reflect(v: &Vec3, n: &Vec3) -> (r: Vec3)
    requires
        abs_le(*v, 2 * SCALE),
        abs_le(*n, 4 * SCALE),
    ensures
        r == reflect_spec(*v, *n),
        abs_le(r, 256 * SCALE),
{
    proof {
        lemma_dot_bound(*v, *n, 2 * SCALE as int, 4 * SCALE as int);
    }
    let d = dot(v, n);
    let ghost dd = 2 * dot_spec(*v, *n);
    proof {
        lemma_abs_mul_le(dd, n.x as int, 0x300_0000, 4096);
        lemma_abs_mul_le(dd, n.y as int, 0x300_0000, 4096);
        lemma_abs_mul_le(dd, n.z as int, 0x300_0000, 4096);
        lemma_div_le_of(dd * n.x, 0x3_0000, 1048576);
        lemma_div_ge_of(dd * n.x, -0x3_0000, 1048576);
        lemma_div_le_of(dd * n.y, 0x3_0000, 1048576);
        lemma_div_ge_of(dd * n.y, -0x3_0000, 1048576);
        lemma_div_le_of(dd * n.z, 0x3_0000, 1048576);
        lemma_div_ge_of(dd * n.z, -0x3_0000, 1048576);
    }
    proof {
        assert((SCALE as int) * (SCALE as int) == 1048576) by (nonlinear_arith)
            requires
                SCALE == 1024,
        ;
    }
    let s2: i128 = 1048576;
    let rx = (v.x as i128) - div_fl(2 * (d as i128) * (n.x as i128), s2);
    let ry = (v.y as i128) - div_fl(2 * (d as i128) * (n.y as i128), s2);
    let rz = (v.z as i128) - div_fl(2 * (d as i128) * (n.z as i128), s2);
    Vec3 { x: rx as i64, y: ry as i64, z: rz as i64 }
}

/// Snell refraction of the near-unit direction `uv` at a surface with
/// near-unit normal `un` and fixed-point refraction ratio `ior`.  The
/// computation follows `r_perp = ior (uv + cos n)`, `r_par = -sqrt(|1 -
/// |r_perp|^2|) n`, carried out over a common power-of-SCALE denominator.
pub open spec fn refract_spec(uv: Vec3, un: Vec3, ior: int) -> Vec3 {
    let d = dot_spec(uv, un);
    let c = if -d > 1048576 { 1048576int } else { -d };
    let px = ior * (uv.x * 1048576 + c * un.x);
    let py = ior * (uv.y * 1048576 + c * un.y);
    let pz = ior * (uv.z * 1048576 + c * un.z);
    let m = 0x1_0000_0000_0000_0000_0000 - (px * px + py * py + pz * pz);
    let am = if m >= 0 { m } else { -m };
    let sp = sqrt_floor(am);
    Vec3 {
        x: ((px * 1024 - sp * un.x) / 0x100_0000_0000) as i64,
        y: ((py * 1024 - sp * un.y) / 0x100_0000_0000) as i64,
        z: ((pz * 1024 - sp * un.z) / 0x100_0000_0000) as i64,
    }
}

pub fn refract(v: &Vec3, n: &Vec3, ior: i64) -> (r: Vec3)
    requires
        abs_le(*v, 2048),
        abs_le(*n, 4096),
        1 <= ior <= 16384,
    ensures
        r == refract_spec(*v, *n, ior as int),
        abs_le(r, 0x4000_0000),
{
    proof {
        lemma_dot_bound(*v, *n, 2048, 4096);
    }
    let d = dot(v, n);
    let c: i64 = if -d > 1048576 { 1048576 } else { -d };
    let ghost gc = c as int;
    proof {
        lemma_abs_mul_le(gc, n.x as int, 0x180_0000, 4096);
        lemma_abs_mul_le(gc, n.y as int, 0x180_0000, 4096);
        lemma_abs_mul_le(gc, n.z as int, 0x180_0000, 4096);
    }
    let ix = (v.x as i128) * 1048576 + (c as i128) * (n.x as i128);
    let iy = (v.y as i128) * 1048576 + (c as i128) * (n.y as i128);
    let iz = (v.z as i128) * 1048576 + (c as i128) * (n.z as i128);
    proof {
        lemma_abs_mul_le(ior as int, ix as int, 16384, 0x40_0000_0000);
        lemma_abs_mul_le(ior as int, iy as int, 16384, 0x40_0000_0000);
        lemma_abs_mul_le(ior as int, iz as int, 16384, 0x40_0000_0000);
    }
    let px = (ior as i128) * ix;
    let py = (ior as i128) * iy;
    let pz = (ior as i128) * iz;
    proof {
        lemma_abs_mul_le(px as int, px as int, 0x100_0000_0000_0000, 0x100_0000_0000_0000);
        lemma_abs_mul_le(py as int, py as int, 0x100_0000_0000_0000, 0x100_0000_0000_0000);
        lemma_abs_mul_le(pz as int, pz as int, 0x100_0000_0000_0000, 0x100_0000_0000_0000);
    }
    let m = 0x1_0000_0000_0000_0000_0000i128 - (px * px + py * py + pz * pz);
    let am = if m >= 0 { m } else { -m };
    let sp = isqrt(am);
    proof {
        assert(sp <= 0x200_0000_0000_0000) by (nonlinear_arith)
            requires
                0 <= sp,
                sp * sp <= am,
                am <= 0x4_0000_0000_0000_0000_0000_0000_0000,
        ;
        lemma_abs_mul_le(sp as int, n.x as int, 0x200_0000_0000_0000, 4096);
        lemma_abs_mul_le(sp as int, n.y as int, 0x200_0000_0000_0000, 4096);
        lemma_abs_mul_le(sp as int, n.z as int, 0x200_0000_0000_0000, 4096);
        lemma_div_le_of((px * 1024 - sp * (n.x as int)) as int, 0x4000_0000, 0x100_0000_0000);
        lemma_div_ge_of((px * 1024 - sp * (n.x as int)) as int, -0x4000_0000, 0x100_0000_0000);
        lemma_div_le_of((py * 1024 - sp * (n.y as int)) as int, 0x4000_0000, 0x100_0000_0000);
        lemma_div_ge_of((py * 1024 - sp * (n.y as int)) as int, -0x4000_0000, 0x100_0000_0000);
        lemma_div_le_of((pz * 1024 - sp * (n.z as int)) as int, 0x4000_0000, 0x100_0000_0000);
        lemma_div_ge_of((pz * 1024 - sp * (n.z as int)) as int, -0x4000_0000, 0x100_0000_0000);
    }
    let rx = div_fl(px * 1024 - sp * (n.x as i128), 0x100_0000_0000);
    let ry = div_fl(py * 1024 - sp * (n.y as i128), 0x100_0000_0000);
    let rz = div_fl(pz * 1024 - sp * (n.z as i128), 0x100_0000_0000);
    Vec3 { x: rx as i64, y: ry as i64, z: rz as i64 }
}

/// Linear interpolation `x (1 - s) + y s` for `s` in `[0, SCALE]`.
pub fn lerp(x: &Vec3, y: &Vec3, s: i64) -> (r: Vec3)
    requires
        0 <= s <= SCALE,
        abs_le(*x, 0x8_0000_0000),
        abs_le(*y, 0x8_0000_0000),
    ensures
        r.x == (x.x * (SCALE - s)) / (SCALE as int) + (y.x * s) / (SCALE as int),
        r.y == (x.y * (SCALE - s)) / (SCALE as int) + (y.y * s) / (SCALE as int),
        r.z == (x.z * (SCALE - s)) / (SCALE as int) + (y.z * s) / (SCALE as int),
    {
    let a = x.scale(SCALE - s);
    let b = y.scale(s);
    proof {
        lemma_abs_mul_le(x.x as int, (SCALE - s) as int, 0x8_0000_0000, 1024);
        lemma_abs_mul_le(x.y as int, (SCALE - s) as int, 0x8_0000_0000, 1024);
        lemma_abs_mul_le(x.z as int, (SCALE - s) as int, 0x8_0000_0000, 1024);
        lemma_abs_mul_le(y.x as int, s as int, 0x8_0000_0000, 1024);
        lemma_abs_mul_le(y.y as int, s as int, 0x8_0000_0000, 1024);
        lemma_abs_mul_le(y.z as int, s as int, 0x8_0000_0000, 1024);
        lemma_div_le_of(x.x * (SCALE - s), 0x2000_0000_0000, SCALE as int);
        lemma_div_ge_of(x.x * (SCALE - s), -0x2000_0000_0000, SCALE as int);
        lemma_div_le_of(x.y * (SCALE - s), 0x2000_0000_0000, SCALE as int);
        lemma_div_ge_of(x.y * (SCALE - s), -0x2000_0000_0000, SCALE as int);
        lemma_div_le_of(x.z * (SCALE - s), 0x2000_0000_0000, SCALE as int);
        lemma_div_ge_of(x.z * (SCALE - s), -0x2000_0000_0000, SCALE as int);
        lemma_div_le_of(y.x * s, 0x2000_0000_0000, SCALE as int);
        lemma_div_ge_of(y.x * s, -0x2000_0000_0000, SCALE as int);
        lemma_div_le_of(y.y * s, 0x2000_0000_0000, SCALE as int);
        lemma_div_ge_of(y.y * s, -0x2000_0000_0000, SCALE as int);
        lemma_div_le_of(y.z * s, 0x2000_0000_0000, SCALE as int);
        lemma_div_ge_of(y.z * s, -0x2000_0000_0000, SCALE as int);
    }
    a.add(&b)
}

/// Rejection-samples a nonzero vector strictly inside the unit ball; after a
/// bounded number of failed draws it falls back to a fixed interior vector.
pub fn random_in_unit_sphere() -> (r: Vec3)
    ensures
        abs_le(r, SCALE as int),
        0 < dot_spec(r, r) < SCALE * SCALE,
{
    let mut i: u32 = 0;
    while i < 64
        invariant
            i <= 64,
        decreases 64 - i,
    {
        let p = Vec3::random_range(-SCALE, SCALE);
        let ls = p.length_squared();
        if 0 < ls && ls < SCALE * SCALE {
            return p;
        }
        i = i + 1;
    }
    let f = Vec3 { x: SCALE / 2, y: 0, z: 0 };
    proof {
        assert(0 < dot_spec(f, f) < SCALE * SCALE) by (nonlinear_arith)
            requires
                f.x == 512 && f.y == 0 && f.z == 0,
                SCALE == 1024,
        ;
    }
    f
}

/// A direction of (floor) unit length, uniformly distributed up to grid
/// rounding.
pub fn random_unit_vector() -> (r: Vec3)
    ensures
        abs_le(r, SCALE as int),
{
    normalize(random_in_unit_sphere())
}

/// A unit-length direction in the hemisphere around `normal`.
pub fn randon_in_hemisphere(normal: &Vec3) -> (r: Vec3)
    requires
        abs_le(*normal, 0x4000_0000),
    ensures
        abs_le(r, SCALE as int),
        dot_spec(r, *normal) >= 0,
{
    let rnd_unit = random_unit_vector();
    if dot(&rnd_unit, normal) > 0 {
        rnd_unit
    } else {
        let neg = rnd_unit.neg();
        proof {
            assert(dot_spec(neg, *normal) == -dot_spec(rnd_unit, *normal)) by (nonlinear_arith)
                requires
                    neg.x == -rnd_unit.x && neg.y == -rnd_unit.y && neg.z == -rnd_unit.z,
            ;
        }
        neg
    }
}

/// Rejection-samples a vector inside the unit disk of the xy-plane; after a
/// bounded number of failed draws it falls back to the origin.
pub fn random_in_unit_disk() -> (r: Vec3)
    ensures
        abs_le(r, SCALE as int),
        dot_spec(r, r) < SCALE * SCALE,
        r.z == 0,
{
    let mut i: u32 = 0;
    while i < 64
        invariant
            i <= 64,
        decreases 64 - i,
    {
        let p = Vec3 { x: rand_range(-SCALE, SCALE), y: rand_range(-SCALE, SCALE), z: 0 };
        let ls = p.length_squared();
        if ls < SCALE * SCALE {
            return p;
        }
        i = i + 1;
    }
    let f = Vec3 { x: 0, y: 0, z: 0 };
    proof {
        assert(dot_spec(f, f) == 0) by (nonlinear_arith)
            requires
                f.x == 0 && f.y == 0 && f.z == 0,
        ;
    }
    f
}

/// Gamma encoding of one linear color channel: the fixed-point square root,
/// which maps `[0, 1]` onto `[0, 1]`.
pub fn linear_to_srgb(c: i64) -> (r: i64)
    requires
        0 <= c <= 0x10_0000_0000,
    ensures
        r == sqrt_floor(c * SCALE),
        0 <= r,
        c <= SCALE ==> r <= SCALE,
{
    proof {
        assert(0 <= (c as int) * (SCALE as int) <= 0x4_0000_0000_0000) by (nonlinear_arith)
            requires
                0 <= c <= 0x10_0000_0000,
                SCALE == 1024,
        ;
    }
    let r = isqrt((c as i128) * (SCALE as i128));
    proof {
        assert(r <= 0x200_0000) by (nonlinear_arith)
            requires
                0 <= r,
                r * r <= (c as int) * SCALE,
                c <= 0x10_0000_0000,
                SCALE == 1024,
        ;
        if c <= SCALE {
            assert(r <= SCALE) by (nonlinear_arith)
                requires
                    0 <= r,
                    r * r <= (c as int) * SCALE,
                    c <= SCALE,
                    SCALE == 1024,
            ;
        }
    }
    r as i64
}

impl Color {
    pub fn white() -> (r: Color)
        ensures
            r == (Color { x: SCALE, y: SCALE, z: SCALE }),
    {
        Color::one()
    }

    pub fn black() -> (r: Color)
        ensures
            r == (Color { x: 0i64, y: 0i64, z: 0i64 }),
    {
        Color::zero()
    }

    pub fn r(&self) -> (r: i64)
        ensures
            r == self.x,
    {
        self.x
    }

    pub fn g(&self) -> (r: i64)
        ensures
            r == self.y,
    {
        self.y
    }

    pub fn b(&self) -> (r: i64)
        ensures
            r == self.z,
    {
        self.z
    }

    /// Gamma-encodes each channel, clamping into `[0, 1]` first.
    pub fn to_srgb(&self) -> (r: Color)
        ensures
            r.x == sqrt_floor(clamp_spec(self.x as int, 0, SCALE as int) * SCALE),
            r.y == sqrt_floor(clamp_spec(self.y as int, 0, SCALE as int) * SCALE),
            r.z == sqrt_floor(clamp_spec(self.z as int, 0, SCALE as int) * SCALE),
            0 <= r.x <= SCALE && 0 <= r.y <= SCALE && 0 <= r.z <= SCALE,
    {
        Color {
            x: linear_to_srgb(saturate(self.x)),
            y: linear_to_srgb(saturate(self.y)),
            z: linear_to_srgb(saturate(self.z)),
        }
    }
}

/// `normalize` for vectors whose components exceed the narrow bound (such as
/// cross products of scene-sized edges); same result, wider arithmetic.
pub fn unit_wide(v: &Vec3) -> (r: Vec3)
    requires
        abs_le(*v, 0x100_0000_0000_0000),
        dot_spec(*v, *v) > 0,
    ensures
        r == normalize_spec(*v),
        abs_le(r, SCALE as int),
{
    proof {
        lemma_abs_mul_le(v.x as int, v.x as int, 0x100_0000_0000_0000, 0x100_0000_0000_0000);
        lemma_abs_mul_le(v.y as int, v.y as int, 0x100_0000_0000_0000, 0x100_0000_0000_0000);
        lemma_abs_mul_le(v.z as int, v.z as int, 0x100_0000_0000_0000, 0x100_0000_0000_0000);
        lemma_dot_self_nonneg(*v);
    }
    let ls = (v.x as i128) * (v.x as i128) + (v.y as i128) * (v.y as i128)
        + (v.z as i128) * (v.z as i128);
    let len = crate::common::isqrt(ls);
    proof {
        let s0 = crate::common::lemma_sqrt_floor_exists(dot_spec(*v, *v));
        lemma_sqrt_floor_unique(dot_spec(*v, *v), s0);
        lemma_component_le_length(*v);
        assert(len >= 1) by (nonlinear_arith)
            requires
                0 <= len,
                len * len <= ls < (len + 1) * (len + 1),
                ls > 0,
        ;
        assert(v.x * 1024 <= len * 1024 && v.x * 1024 >= len * (-1024)) by (nonlinear_arith)
            requires
                -len <= v.x <= len,
        ;
        assert(v.y * 1024 <= len * 1024 && v.y * 1024 >= len * (-1024)) by (nonlinear_arith)
            requires
                -len <= v.y <= len,
        ;
        assert(v.z * 1024 <= len * 1024 && v.z * 1024 >= len * (-1024)) by (nonlinear_arith)
            requires
                -len <= v.z <= len,
        ;
        lemma_div_le_of(v.x * 1024, 1024, len as int);
        lemma_div_ge_of(v.x * 1024, -1024, len as int);
        lemma_div_le_of(v.y * 1024, 1024, len as int);
        lemma_div_ge_of(v.y * 1024, -1024, len as int);
        lemma_div_le_of(v.z * 1024, 1024, len as int);
        lemma_div_ge_of(v.z * 1024, -1024, len as int);
        assert(v.x * 1024 == v.x * SCALE && v.y * 1024 == v.y * SCALE
            && v.z * 1024 == v.z * SCALE) by (nonlinear_arith)
            requires
                SCALE == 1024,
        ;
    }
    let rx = div_fl((v.x as i128) * 1024, len);
    let ry = div_fl((v.y as i128) * 1024, len);
    let rz = div_fl((v.z as i128) * 1024, len);
    Vec3 { x: rx as i64, y: ry as i64, z: rz as i64 }
}

/// With a refraction ratio of one there is no bending: refraction returns
/// the incoming direction unchanged.  Stated for directions and normals that
/// are exactly unit length on the grid, with the normal oriented against the
/// incoming direction; the corresponding dielectric ratio of an index of one
/// is one in both the entering and the leaving case.
pub proof fn lemma_refract_identity_at_unity(uv: Vec3, un: Vec3)
    requires
        dot_spec(uv, uv) == 1048576,
        dot_spec(un, un) == 1048576,
        -1048576 <= dot_spec(uv, un) <= 0,
    ensures
        refract_spec(uv, un, 1024) == uv,
{
    let d = dot_spec(uv, un);
    let c = -d;
    assert(0 <= c <= 1048576);
    let ix = uv.x * 1048576 + c * un.x;
    let iy = uv.y * 1048576 + c * un.y;
    let iz = uv.z * 1048576 + c * un.z;
    let px = 1024 * ix;
    let py = 1024 * iy;
    let pz = 1024 * iz;
    assert(ix * ix == 1048576 * 1048576 * (uv.x * uv.x) + 2 * 1048576 * (c * (uv.x * un.x))
        + (c * c) * (un.x * un.x)) by (nonlinear_arith)
        requires
            ix == uv.x * 1048576 + c * un.x,
    ;
    assert(iy * iy == 1048576 * 1048576 * (uv.y * uv.y) + 2 * 1048576 * (c * (uv.y * un.y))
        + (c * c) * (un.y * un.y)) by (nonlinear_arith)
        requires
            iy == uv.y * 1048576 + c * un.y,
    ;
    assert(iz * iz == 1048576 * 1048576 * (uv.z * uv.z) + 2 * 1048576 * (c * (uv.z * un.z))
        + (c * c) * (un.z * un.z)) by (nonlinear_arith)
        requires
            iz == uv.z * 1048576 + c * un.z,
    ;
    assert(c * (uv.x * un.x) + c * (uv.y * un.y) + c * (uv.z * un.z) == c * d)
        by (nonlinear_arith)
        requires
            d == uv.x * un.x + uv.y * un.y + uv.z * un.z,
    ;
    assert((c * c) * (un.x * un.x) + (c * c) * (un.y * un.y) + (c * c) * (un.z * un.z)
        == (c * c) * 1048576) by (nonlinear_arith)
        requires
            un.x * un.x + un.y * un.y + un.z * un.z == 1048576,
    ;
    assert(1048576 * 1048576 * (uv.x * uv.x) + 1048576 * 1048576 * (uv.y * uv.y)
        + 1048576 * 1048576 * (uv.z * uv.z) == 1048576 * 1048576 * 1048576)
        by (nonlinear_arith)
        requires
            uv.x * uv.x + uv.y * uv.y + uv.z * uv.z == 1048576,
    ;
    assert(c * d == -(c * c)) by (nonlinear_arith)
        requires
            c == -d,
    ;
    assert(ix * ix + iy * iy + iz * iz == 1048576 * 1048576 * 1048576 - (c * c) * 1048576)
        by (nonlinear_arith)
        requires
            ix * ix == 1048576 * 1048576 * (uv.x * uv.x) + 2 * 1048576 * (c * (uv.x * un.x))
                + (c * c) * (un.x * un.x),
            iy * iy == 1048576 * 1048576 * (uv.y * uv.y) + 2 * 1048576 * (c * (uv.y * un.y))
                + (c * c) * (un.y * un.y),
            iz * iz == 1048576 * 1048576 * (uv.z * uv.z) + 2 * 1048576 * (c * (uv.z * un.z))
                + (c * c) * (un.z * un.z),
            c * (uv.x * un.x) + c * (uv.y * un.y) + c * (uv.z * un.z) == c * d,
            (c * c) * (un.x * un.x) + (c * c) * (un.y * un.y) + (c * c) * (un.z * un.z)
                == (c * c) * 1048576,
            1048576 * 1048576 * (uv.x * uv.x) + 1048576 * 1048576 * (uv.y * uv.y)
                + 1048576 * 1048576 * (uv.z * uv.z) == 1048576 * 1048576 * 1048576,
            c * d == -(c * c),
    ;
    assert(px * px == 1048576 * (ix * ix) && py * py == 1048576 * (iy * iy)
        && pz * pz == 1048576 * (iz * iz)) by (nonlinear_arith)
        requires
            px == 1024 * ix,
            py == 1024 * iy,
            pz == 1024 * iz,
    ;
    assert(px * px + py * py + pz * pz
        == 1048576 * (1048576 * 1048576 * 1048576 - (c * c) * 1048576)) by (nonlinear_arith)
        requires
            px * px == 1048576 * (ix * ix),
            py * py == 1048576 * (iy * iy),
            pz * pz == 1048576 * (iz * iz),
            ix * ix + iy * iy + iz * iz == 1048576 * 1048576 * 1048576 - (c * c) * 1048576,
    ;
    let m = 0x1_0000_0000_0000_0000_0000 - (px * px + py * py + pz * pz);
    assert(m == (c * 1048576) * (c * 1048576)) by (nonlinear_arith)
        requires
            m == 0x1_0000_0000_0000_0000_0000 - 1048576 * (1048576 * 1048576 * 1048576
                - (c * c) * 1048576),
    ;
    assert(m >= 0) by (nonlinear_arith)
        requires
            m == (c * 1048576) * (c * 1048576),
    ;
    assert(c * 1048576 >= 0) by (nonlinear_arith)
        requires
            c >= 0,
    ;
    assert((c * 1048576) * (c * 1048576) < (c * 1048576 + 1) * (c * 1048576 + 1))
        by (nonlinear_arith)
        requires
            c >= 0,
    ;
    crate::common::lemma_sqrt_floor_unique(m, c * 1048576);
    let sp = sqrt_floor(m);
    assert(sp == c * 1048576);
    // the parallel part cancels the cosine term of the perpendicular part
    assert(px * 1024 - sp * un.x == 0x100_0000_0000 * uv.x) by (nonlinear_arith)
        requires
            px == 1024 * (uv.x * 1048576 + c * un.x),
            sp == c * 1048576,
    ;
    assert(py * 1024 - sp * un.y == 0x100_0000_0000 * uv.y) by (nonlinear_arith)
        requires
            py == 1024 * (uv.y * 1048576 + c * un.y),
            sp == c * 1048576,
    ;
    assert(pz * 1024 - sp * un.z == 0x100_0000_0000 * uv.z) by (nonlinear_arith)
        requires
            pz == 1024 * (uv.z * 1048576 + c * un.z),
            sp == c * 1048576,
    ;
    assert((0x100_0000_0000 * (uv.x as int)) / 0x100_0000_0000 == uv.x
        && (0x100_0000_0000 * (uv.y as int)) / 0x100_0000_0000 == uv.y
        && (0x100_0000_0000 * (uv.z as int)) / 0x100_0000_0000 == uv.z) by {
        broadcast use vstd::arithmetic::div_mod::lemma_div_multiples_vanish;

    }
}

} // verus!
