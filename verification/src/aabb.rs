use vstd::prelude::*;

use crate::common::{
    lemma_rat_le_trans, rat_le, rat_le_exec, SCALE, TMAX,
};
use crate::interval::{interval_wf, Interval};
use crate::ray::{ray_wf, Ray};
use crate::vec3::{Point3, Vec3};

verus! {

/// Bound on box endpoints; wide enough to hold any primitive box after the
/// decorators the scene builders apply, and small enough that the slab
/// cross-products stay within `i128`.
pub const BOXMAX: i64 = 0x1_0000_0000_0000;

/// An axis-aligned box: one closed interval per axis.
#[derive(Clone, Copy, Debug, PartialEq, Eq, Structural)]
pub struct AABB {
    pub x: Interval,
    pub y: Interval,
    pub z: Interval,
}

/// The componentwise interval union of two boxes, as `AABB::add` computes.
pub open spec fn box_union(a: AABB, b: AABB) -> AABB {
    AABB {
        x: Interval {
            min: if a.x.min < b.x.min { a.x.min } else { b.x.min },
            max: if a.x.max > b.x.max { a.x.max } else { b.x.max },
        },
        y: Interval {
            min: if a.y.min < b.y.min { a.y.min } else { b.y.min },
            max: if a.y.max > b.y.max { a.y.max } else { b.y.max },
        },
        z: Interval {
            min: if a.z.min < b.z.min { a.z.min } else { b.z.min },
            max: if a.z.max > b.z.max { a.z.max } else { b.z.max },
        },
    }
}

/// The box no point lies in.
pub open spec fn empty_box() -> AABB {
    AABB {
        x: Interval { min: TMAX, max: (-TMAX) as i64 },
        y: Interval { min: TMAX, max: (-TMAX) as i64 },
        z: Interval { min: TMAX, max: (-TMAX) as i64 },
    }
}

pub open spec fn box_wf(b: AABB) -> bool {
    &&& -BOXMAX <= b.x.min <= BOXMAX
    &&& -BOXMAX <= b.x.max <= BOXMAX
    &&& -BOXMAX <= b.y.min <= BOXMAX
    &&& -BOXMAX <= b.y.max <= BOXMAX
    &&& -BOXMAX <= b.z.min <= BOXMAX
    &&& -BOXMAX <= b.z.max <= BOXMAX
}

/// The ray parameter `tn/td` (in raw units, `td > 0`) sends the axis
/// coordinate `o + (tn/td) d / SCALE` into `[bmin, bmax]`.
pub open spec fn in_slab(bmin: int, bmax: int, o: int, d: int, tn: int, td: int) -> bool {
    &&& ((bmin - o) * SCALE) * td <= tn * d
    &&& tn * d <= ((bmax - o) * SCALE) * td
}

/// Some ray parameter within `ray_t` lies inside all three slabs of `b`:
/// the box and the query interval overlap along the ray.
pub open spec fn slab_witness(b: AABB, r: Ray, ray_t: Interval, tn: int, td: int) -> bool {
    &&& td > 0
    &&& ray_t.min * td <= tn
    &&& tn <= ray_t.max * td
    &&& in_slab(b.x.min as int, b.x.max as int, r.origin.x as int, r.direction.x as int, tn, td)
    &&& in_slab(b.y.min as int, b.y.max as int, r.origin.y as int, r.direction.y as int, tn, td)
    &&& in_slab(b.z.min as int, b.z.max as int, r.origin.z as int, r.direction.z as int, tn, td)
}

pub open spec fn slab_hit_spec(b: AABB, r: Ray, ray_t: Interval) -> bool {
    exists|tn: int, td: int| slab_witness(b, r, ray_t, tn, td)
}

/// The padding `AABB::pad` applies: any axis thinner than two grid steps is
/// widened by one step on each side.
pub open spec fn pad_interval(i: Interval) -> Interval {
    if i.max - i.min >= 2 {
        i
    } else {
        Interval { min: (i.min - 1) as i64, max: (i.max + 1) as i64 }
    }
}

pub open spec fn pad_box(b: AABB) -> AABB {
    AABB { x: pad_interval(b.x), y: pad_interval(b.y), z: pad_interval(b.z) }
}

/// The lower/upper rational bounds `(an/ad, bn/bd)` that one axis imposes on
/// the ray parameter; for a zero direction component (and an origin inside
/// the slab) the axis imposes nothing and the query interval is handed back.
fn axis_bounds(bmin: i64, bmax: i64, o: i64, d: i64, qlo: i64, qhi: i64) -> (r: (i128, i128, i128, i128))
    requires
        -BOXMAX <= bmin <= BOXMAX,
        -BOXMAX <= bmax <= BOXMAX,
        -crate::common::OMAX <= o <= crate::common::OMAX,
        -crate::common::VMAX <= d <= crate::common::VMAX,
        -TMAX <= qlo <= TMAX,
        -TMAX <= qhi <= TMAX,
        d == 0 ==> bmin <= o <= bmax,
    ensures
        0 < r.1 <= 0x4000_0000_0000_0000,
        0 < r.3 <= 0x4000_0000_0000_0000,
        -0x4000_0000_0000_0000 <= r.0 <= 0x4000_0000_0000_0000,
        -0x4000_0000_0000_0000 <= r.2 <= 0x4000_0000_0000_0000,
        forall|tn: int, td: int|
            #![trigger in_slab(bmin as int, bmax as int, o as int, d as int, tn, td)]
            (td > 0 && qlo * td <= tn && tn <= qhi * td) ==> (
                in_slab(bmin as int, bmax as int, o as int, d as int, tn, td)
                    <==> (rat_le(r.0 as int, r.1 as int, tn, td)
                        && rat_le(tn, td, r.2 as int, r.3 as int))),
{
    if d == 0 {
        let r = (qlo as i128, 1i128, qhi as i128, 1i128);
        proof {
            assert forall|tn: int, td: int|
                (td > 0 && qlo * td <= tn && tn <= qhi * td) implies (
                    in_slab(bmin as int, bmax as int, o as int, d as int, tn, td)
                        <==> (rat_le(r.0 as int, r.1 as int, tn, td)
                            && rat_le(tn, td, r.2 as int, r.3 as int))) by {
                assert(((bmin - o) * SCALE) * td <= 0 && 0 <= ((bmax - o) * SCALE) * td)
                    by (nonlinear_arith)
                    requires
                        bmin <= o <= bmax,
                        td > 0,
                        SCALE == 1024,
                ;
                assert(tn * (d as int) == 0) by (nonlinear_arith)
                    requires
                        d == 0,
                ;
            }
        }
        r
    } else if d > 0 {
        let an = ((bmin - o) as i128) * 1024;
        let bn = ((bmax - o) as i128) * 1024;
        let r = (an, d as i128, bn, d as i128);
        proof {
            assert(an as int == (bmin as int - o as int) * SCALE
                && bn as int == (bmax as int - o as int) * SCALE) by (nonlinear_arith)
                requires
                    SCALE == 1024,
                    an == (bmin as int - o as int) * 1024,
                    bn == (bmax as int - o as int) * 1024,
            ;
            assert forall|tn: int, td: int|
                (td > 0 && qlo * td <= tn && tn <= qhi * td) implies (
                    in_slab(bmin as int, bmax as int, o as int, d as int, tn, td)
                        <==> (rat_le(r.0 as int, r.1 as int, tn, td)
                            && rat_le(tn, td, r.2 as int, r.3 as int))) by {
            }
        }
        r
    } else {
        let an = ((o - bmax) as i128) * 1024;
        let bn = ((o - bmin) as i128) * 1024;
        let nd = -(d as i128);
        let r = (an, nd, bn, nd);
        proof {
            assert(an as int == (o as int - bmax as int) * SCALE
                && bn as int == (o as int - bmin as int) * SCALE) by (nonlinear_arith)
                requires
                    SCALE == 1024,
                    an == (o as int - bmax as int) * 1024,
                    bn == (o as int - bmin as int) * 1024,
            ;
            assert forall|tn: int, td: int|
                (td > 0 && qlo * td <= tn && tn <= qhi * td) implies (
                    in_slab(bmin as int, bmax as int, o as int, d as int, tn, td)
                        <==> (rat_le(r.0 as int, r.1 as int, tn, td)
                            && rat_le(tn, td, r.2 as int, r.3 as int))) by {
                assert(((o - bmax) * SCALE) * td == -(((bmax - o) * SCALE) * td)
                    && ((o - bmin) * SCALE) * td == -(((bmin - o) * SCALE) * td)
                    && tn * (-(d as int)) == -(tn * d)) by (nonlinear_arith);
            }
        }
        r
    }
}

impl AABB {
    /// The box whose per-axis intervals span the two corner points.
    pub fn new(a: &Point3, b: &Point3) -> (r: AABB)
        ensures
            r.x.min == if a.x < b.x { a.x } else { b.x },
            r.x.max == if a.x > b.x { a.x } else { b.x },
            r.y.min == if a.y < b.y { a.y } else { b.y },
            r.y.max == if a.y > b.y { a.y } else { b.y },
            r.z.min == if a.z < b.z { a.z } else { b.z },
            r.z.max == if a.z > b.z { a.z } else { b.z },
    {
        AABB {
            x: Interval {
                min: if a.x < b.x { a.x } else { b.x },
                max: if a.x > b.x { a.x } else { b.x },
            },
            y: Interval {
                min: if a.y < b.y { a.y } else { b.y },
                max: if a.y > b.y { a.y } else { b.y },
            },
            z: Interval {
                min: if a.z < b.z { a.z } else { b.z },
                max: if a.z > b.z { a.z } else { b.z },
            },
        }
    }

    pub fn axis(&self, n: usize) -> (r: &Interval)
        requires
            n <= 2,
        ensures
            *r == if n == 0 { self.x } else if n == 1 { self.y } else { self.z },
    {
        match n {
            0 => &self.x,
            1 => &self.y,
            _ => &self.z,
        }
    }

    /// The slab test: true exactly when some ray parameter in `ray_t` sends
    /// the ray into the box on all three axes at once — that is, false iff
    /// the sign-corrected per-axis slab intervals and the query interval
    /// have empty overall overlap.
    pub fn hit(&self, r: &Ray, ray_t: Interval) -> (res: bool)
        requires
            box_wf(*self),
            ray_wf(*r),
            interval_wf(ray_t),
        ensures
            res == slab_hit_spec(*self, *r, ray_t),
    {
        // an axis the ray travels parallel to rejects outright unless the
        // origin is inside its slab
        if r.direction.x == 0 && (r.origin.x < self.x.min || r.origin.x > self.x.max) {
            proof {
                assert forall|tn: int, td: int| !slab_witness(*self, *r, ray_t, tn, td) by {
                    if td > 0 {
                        assert(!in_slab(self.x.min as int, self.x.max as int, r.origin.x as int,
                            r.direction.x as int, tn, td)) by (nonlinear_arith)
                            requires
                                td > 0,
                                r.direction.x == 0,
                                r.origin.x < self.x.min || r.origin.x > self.x.max,
                                SCALE == 1024,
                        ;
                    }
                }
            }
            return false;
        }
        if r.direction.y == 0 && (r.origin.y < self.y.min || r.origin.y > self.y.max) {
            proof {
                assert forall|tn: int, td: int| !slab_witness(*self, *r, ray_t, tn, td) by {
                    if td > 0 {
                        assert(!in_slab(self.y.min as int, self.y.max as int, r.origin.y as int,
                            r.direction.y as int, tn, td)) by (nonlinear_arith)
                            requires
                                td > 0,
                                r.direction.y == 0,
                                r.origin.y < self.y.min || r.origin.y > self.y.max,
                                SCALE == 1024,
                        ;
                    }
                }
            }
            return false;
        }
        if r.direction.z == 0 && (r.origin.z < self.z.min || r.origin.z > self.z.max) {
            proof {
                assert forall|tn: int, td: int| !slab_witness(*self, *r, ray_t, tn, td) by {
                    if td > 0 {
                        assert(!in_slab(self.z.min as int, self.z.max as int, r.origin.z as int,
                            r.direction.z as int, tn, td)) by (nonlinear_arith)
                            requires
                                td > 0,
                                r.direction.z == 0,
                                r.origin.z < self.z.min || r.origin.z > self.z.max,
                                SCALE == 1024,
                        ;
                    }
                }
            }
            return false;
        }

        let (a1n, a1d, b1n, b1d) = axis_bounds(self.x.min, self.x.max, r.origin.x, r.direction.x,
            ray_t.min, ray_t.max);
        let (a2n, a2d, b2n, b2d) = axis_bounds(self.y.min, self.y.max, r.origin.y, r.direction.y,
            ray_t.min, ray_t.max);
        let (a3n, a3d, b3n, b3d) = axis_bounds(self.z.min, self.z.max, r.origin.z, r.direction.z,
            ray_t.min, ray_t.max);

        // running maximum of the lower bounds, starting from the query's
        let mut mn: i128 = ray_t.min as i128;
        let mut md: i128 = 1;
        if rat_le_exec(mn, md, a1n, a1d) {
            mn = a1n;
            md = a1d;
        }
        if rat_le_exec(mn, md, a2n, a2d) {
            proof {
                lemma_rat_le_trans(ray_t.min as int, 1, mn as int, md as int, a2n as int,
                    a2d as int);
                lemma_rat_le_trans(a1n as int, a1d as int, mn as int, md as int, a2n as int,
                    a2d as int);
            }
            mn = a2n;
            md = a2d;
        }
        if rat_le_exec(mn, md, a3n, a3d) {
            proof {
                lemma_rat_le_trans(ray_t.min as int, 1, mn as int, md as int, a3n as int,
                    a3d as int);
                lemma_rat_le_trans(a1n as int, a1d as int, mn as int, md as int, a3n as int,
                    a3d as int);
                lemma_rat_le_trans(a2n as int, a2d as int, mn as int, md as int, a3n as int,
                    a3d as int);
            }
            mn = a3n;
            md = a3d;
        }

        // running minimum of the upper bounds, starting from the query's
        let mut hn: i128 = ray_t.max as i128;
        let mut hd: i128 = 1;
        if rat_le_exec(b1n, b1d, hn, hd) {
            proof {
                lemma_rat_le_trans(b1n as int, b1d as int, hn as int, hd as int, ray_t.max as int,
                    1);
            }
            hn = b1n;
            hd = b1d;
        }
        if rat_le_exec(b2n, b2d, hn, hd) {
            proof {
                lemma_rat_le_trans(b2n as int, b2d as int, hn as int, hd as int, ray_t.max as int,
                    1);
                lemma_rat_le_trans(b2n as int, b2d as int, hn as int, hd as int, b1n as int,
                    b1d as int);
            }
            hn = b2n;
            hd = b2d;
        }
        if rat_le_exec(b3n, b3d, hn, hd) {
            proof {
                lemma_rat_le_trans(b3n as int, b3d as int, hn as int, hd as int, ray_t.max as int,
                    1);
                lemma_rat_le_trans(b3n as int, b3d as int, hn as int, hd as int, b1n as int,
                    b1d as int);
                lemma_rat_le_trans(b3n as int, b3d as int, hn as int, hd as int, b2n as int,
                    b2d as int);
            }
            hn = b3n;
            hd = b3d;
        }

        let res = rat_le_exec(mn, md, hn, hd);
        proof {
            // the running extremes bound every constraint, and are drawn
            // from among them
            assert(rat_le(ray_t.min as int, 1, mn as int, md as int));
            assert(rat_le(a1n as int, a1d as int, mn as int, md as int));
            assert(rat_le(a2n as int, a2d as int, mn as int, md as int));
            assert(rat_le(a3n as int, a3d as int, mn as int, md as int));
            assert((mn == ray_t.min && md == 1) || (mn == a1n && md == a1d)
                || (mn == a2n && md == a2d) || (mn == a3n && md == a3d));
            assert(rat_le(hn as int, hd as int, ray_t.max as int, 1));
            assert(rat_le(hn as int, hd as int, b1n as int, b1d as int));
            assert(rat_le(hn as int, hd as int, b2n as int, b2d as int));
            assert(rat_le(hn as int, hd as int, b3n as int, b3d as int));
            assert((hn == ray_t.max && hd == 1) || (hn == b1n && hd == b1d)
                || (hn == b2n && hd == b2d) || (hn == b3n && hd == b3d));

            if res {
                // the maximal lower bound is the witness
                let tn = mn as int;
                let td = md as int;
                lemma_rat_le_trans(tn, td, hn as int, hd as int, ray_t.max as int, 1);
                lemma_rat_le_trans(tn, td, hn as int, hd as int, b1n as int, b1d as int);
                lemma_rat_le_trans(tn, td, hn as int, hd as int, b2n as int, b2d as int);
                lemma_rat_le_trans(tn, td, hn as int, hd as int, b3n as int, b3d as int);
                assert(ray_t.min * td <= tn && tn <= ray_t.max * td);
                assert(in_slab(self.x.min as int, self.x.max as int, r.origin.x as int,
                    r.direction.x as int, tn, td));
                assert(in_slab(self.y.min as int, self.y.max as int, r.origin.y as int,
                    r.direction.y as int, tn, td));
                assert(in_slab(self.z.min as int, self.z.max as int, r.origin.z as int,
                    r.direction.z as int, tn, td));
                assert(slab_witness(*self, *r, ray_t, tn, td));
            } else {
                assert forall|tn: int, td: int| !slab_witness(*self, *r, ray_t, tn, td) by {
                    if slab_witness(*self, *r, ray_t, tn, td) {
                        assert(in_slab(self.x.min as int, self.x.max as int, r.origin.x as int,
                            r.direction.x as int, tn, td));
                        assert(rat_le(a1n as int, a1d as int, tn, td)
                            && rat_le(tn, td, b1n as int, b1d as int));
                        assert(rat_le(a2n as int, a2d as int, tn, td)
                            && rat_le(tn, td, b2n as int, b2d as int));
                        assert(rat_le(a3n as int, a3d as int, tn, td)
                            && rat_le(tn, td, b3n as int, b3d as int));
                        assert(rat_le(ray_t.min as int, 1, tn, td));
                        assert(rat_le(tn, td, ray_t.max as int, 1));
                        // whichever constraints the running extremes came
                        // from, the witness sits between them
                        lemma_rat_le_trans(mn as int, md as int, tn, td, hn as int, hd as int);
                        assert(false);
                    }
                }
            }
        }
        res
    }

    /// Widens any near-degenerate axis a little, so no box is flat.
    pub fn pad(&self) -> (r: AABB)
        requires
            -0xFFFF_FFFF_FFFE <= self.x.min <= 0xFFFF_FFFF_FFFE,
            -0xFFFF_FFFF_FFFE <= self.x.max <= 0xFFFF_FFFF_FFFE,
            -0xFFFF_FFFF_FFFE <= self.y.min <= 0xFFFF_FFFF_FFFE,
            -0xFFFF_FFFF_FFFE <= self.y.max <= 0xFFFF_FFFF_FFFE,
            -0xFFFF_FFFF_FFFE <= self.z.min <= 0xFFFF_FFFF_FFFE,
            -0xFFFF_FFFF_FFFE <= self.z.max <= 0xFFFF_FFFF_FFFE,
        ensures
            box_wf(r),
            r == pad_box(*self),
    {
        let delta: i64 = 2;
        AABB {
            x: if self.x.size() >= delta { self.x } else { self.x.expand(delta) },
            y: if self.y.size() >= delta { self.y } else { self.y.expand(delta) },
            z: if self.z.size() >= delta { self.z } else { self.z.expand(delta) },
        }
    }

    /// The smallest box holding both operands (componentwise interval union).
    pub fn add(&self, other: &AABB) -> (r: AABB)
        ensures
            r.x.min == if self.x.min < other.x.min { self.x.min } else { other.x.min },
            r.x.max == if self.x.max > other.x.max { self.x.max } else { other.x.max },
            r.y.min == if self.y.min < other.y.min { self.y.min } else { other.y.min },
            r.y.max == if self.y.max > other.y.max { self.y.max } else { other.y.max },
            r.z.min == if self.z.min < other.z.min { self.z.min } else { other.z.min },
            r.z.max == if self.z.max > other.z.max { self.z.max } else { other.z.max },
    {
        AABB { x: self.x.add(&other.x), y: self.y.add(&other.y), z: self.z.add(&other.z) }
    }

    /// The box moved by the offset `v`.
    pub fn shift(&self, v: &Vec3) -> (r: AABB)
        requires
            box_wf(*self),
            crate::vec3::in_range(*v),
        ensures
            r.x.min == self.x.min + v.x && r.x.max == self.x.max + v.x,
            r.y.min == self.y.min + v.y && r.y.max == self.y.max + v.y,
            r.z.min == self.z.min + v.z && r.z.max == self.z.max + v.z,
    {
        AABB { x: self.x.shift(v.x), y: self.y.shift(v.y), z: self.z.shift(v.z) }
    }
}

} // verus!
