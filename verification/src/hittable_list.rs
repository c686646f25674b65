use vstd::prelude::*;

use crate::aabb::{box_wf, AABB};
use crate::hittable::{hit_spec, rec_wf, wf, HitRecord, Hittable};
use crate::interval::{interval_wf, Interval};
use crate::ray::{ray_wf, Ray};

verus! {

/// A linear aggregate of hittables, tested in order with the search interval
/// shrinking to the closest hit found so far.
pub struct HittableList {
    pub objects: Vec<Hittable>,
    pub bbox: AABB,
}

/// The fold the brute-force traversal computes: objects in order, each
/// queried on the interval narrowed to the best hit so far.
pub open spec fn list_fold_spec(objs: Seq<Hittable>, r: Ray, ray_t: Interval) -> Option<
    HitRecord,
>
    decreases objs,
{
    if objs.len() == 0 {
        None
    } else {
        let prev = list_fold_spec(objs.drop_last(), r, ray_t);
        let hi = match prev {
            Some(rec) => rec.t,
            None => ray_t.max,
        };
        match hit_spec(objs[objs.len() - 1], r, Interval { min: ray_t.min, max: hi }) {
            Some(rr) => Some(rr),
            None => prev,
        }
    }
}

impl HittableList {
    /// The empty aggregate; its box is empty, so it never reports a hit.
    pub fn new_empty() -> (l: HittableList)
        ensures
            l.objects@.len() == 0,
            l.bbox.x.min == crate::common::TMAX && l.bbox.x.max == -crate::common::TMAX,
            l.bbox.y.min == crate::common::TMAX && l.bbox.y.max == -crate::common::TMAX,
            l.bbox.z.min == crate::common::TMAX && l.bbox.z.max == -crate::common::TMAX,
            wf(Hittable::List(l)),
    {
        let e = Interval::empty();
        HittableList { objects: Vec::new(), bbox: AABB { x: e, y: e, z: e } }
    }

    /// A list holding one object.
    pub fn new(obj: Hittable) -> (l: HittableList)
        requires
            wf(obj),
        ensures
            wf(Hittable::List(l)),
            l.objects@ =~= seq![obj],
    {
        let mut h = HittableList::new_empty();
        h.add_obj(obj);
        h
    }

    /// Appends an object, growing the aggregate box to the per-axis union
    /// of the old box and the object's box.
    pub fn add_obj(&mut self, obj: Hittable)
        requires
            wf(Hittable::List(*old(self))),
            wf(obj),
        ensures
            wf(Hittable::List(*final(self))),
            final(self).objects@ =~= old(self).objects@.push(obj),
            final(self).bbox.x.min == if old(self).bbox.x.min
                < crate::hittable::bbox_of(obj).x.min {
                old(self).bbox.x.min as int
            } else {
                crate::hittable::bbox_of(obj).x.min as int
            },
            final(self).bbox.x.max == if old(self).bbox.x.max
                > crate::hittable::bbox_of(obj).x.max {
                old(self).bbox.x.max as int
            } else {
                crate::hittable::bbox_of(obj).x.max as int
            },
            final(self).bbox.y.min == if old(self).bbox.y.min
                < crate::hittable::bbox_of(obj).y.min {
                old(self).bbox.y.min as int
            } else {
                crate::hittable::bbox_of(obj).y.min as int
            },
            final(self).bbox.y.max == if old(self).bbox.y.max
                > crate::hittable::bbox_of(obj).y.max {
                old(self).bbox.y.max as int
            } else {
                crate::hittable::bbox_of(obj).y.max as int
            },
            final(self).bbox.z.min == if old(self).bbox.z.min
                < crate::hittable::bbox_of(obj).z.min {
                old(self).bbox.z.min as int
            } else {
                crate::hittable::bbox_of(obj).z.min as int
            },
            final(self).bbox.z.max == if old(self).bbox.z.max
                > crate::hittable::bbox_of(obj).z.max {
                old(self).bbox.z.max as int
            } else {
                crate::hittable::bbox_of(obj).z.max as int
            },
    {
        proof {
            crate::hittable::lemma_wf_box(obj);
        }
        self.bbox = self.bbox.add(&obj.bounding_box());
        self.objects.push(obj);
        proof {
            assert forall|i: int| 0 <= i < self.objects@.len() implies wf(
                #[trigger] self.objects@[i],
            ) && crate::hittable::box_contains(self.bbox, crate::hittable::bbox_of(
                self.objects@[i])) by {
                if i < self.objects@.len() - 1 {
                    assert(self.objects@[i] == old(self).objects@[i]);
                    assert(crate::hittable::box_contains(old(self).bbox,
                        crate::hittable::bbox_of(old(self).objects@[i])));
                } else {
                    assert(self.objects@[i] == obj);
                }
            }
        }
    }

    /// Brute-force traversal: box pre-check, then the narrowing fold over the
    /// members in order.
    pub fn hit(&self, r: &Ray, ray_t: Interval, rec: &mut HitRecord) -> (res: bool)
        requires
            wf(Hittable::List(*self)),
            ray_wf(*r),
            interval_wf(ray_t),
        ensures
            match list_hit_spec(*self, *r, ray_t) {
                Some(rr) => res && *final(rec) == rr,
                None => !res && *final(rec) == *old(rec),
            },
            res ==> rec_wf(*final(rec), ray_t),
        decreases *self,
    {
        if !self.bbox.hit(r, ray_t) {
            return false;
        }
        let saved: HitRecord = *rec;
        let mut closest: i64 = ray_t.max;
        let mut hit_anything: bool = false;
        let n = self.objects.len();
        proof {
            assert(self.objects@.subrange(0, 0) =~= Seq::<Hittable>::empty());
        }
        let mut i: usize = 0;
        while i < n
            invariant
                n == self.objects@.len(),
                0 <= i <= n,
                wf(Hittable::List(*self)),
                ray_wf(*r),
                interval_wf(ray_t),
                match list_fold_spec(self.objects@.subrange(0, i as int), *r, ray_t) {
                    Some(rr) => hit_anything && *rec == rr && closest == rr.t
                        && rec_wf(rr, ray_t),
                    None => !hit_anything && *rec == saved && closest == ray_t.max,
                },
            decreases n - i,
        {
            let narrowed = Interval { min: ray_t.min, max: closest };
            proof {
                assert(interval_wf(narrowed));
            }
            if self.objects[i].hit(r, narrowed, rec) {
                hit_anything = true;
                closest = rec.t;
            }
            proof {
                let pre = self.objects@.subrange(0, i as int);
                let post = self.objects@.subrange(0, i as int + 1);
                assert(post.drop_last() =~= pre);
                assert(post[post.len() - 1] == self.objects@[i as int]);
            }
            i = i + 1;
        }
        proof {
            assert(self.objects@.subrange(0, n as int) =~= self.objects@);
        }
        hit_anything
    }

    pub fn bounding_box(&self) -> (b: AABB)
        ensures
            b == self.bbox,
    {
        self.bbox
    }
}

/// The mirror of the list traversal: the aggregate box is tested first, then
/// the members are folded in order.
pub open spec fn list_hit_spec(l: HittableList, r: Ray, ray_t: Interval) -> Option<HitRecord>
    decreases l,
{
    if !crate::aabb::slab_hit_spec(l.bbox, r, ray_t) {
        None
    } else {
        list_fold_spec(l.objects@, r, ray_t)
    }
}

/// The narrowing fold never reports a parameter outside the query interval.
pub proof fn lemma_fold_t_in_range(objs: Seq<Hittable>, r: Ray, ray_t: Interval)
    requires
        forall|i: int| 0 <= i < objs.len() ==> wf(#[trigger] objs[i]),
        ray_wf(r),
        interval_wf(ray_t),
    ensures
        match list_fold_spec(objs, r, ray_t) {
            Some(rec) => ray_t.min <= rec.t <= ray_t.max,
            None => true,
        },
    decreases objs,
{
    if objs.len() > 0 {
        lemma_fold_t_in_range(objs.drop_last(), r, ray_t);
        let prev = list_fold_spec(objs.drop_last(), r, ray_t);
        let hi = match prev {
            Some(rec) => rec.t,
            None => ray_t.max,
        };
        let narrowed = Interval { min: ray_t.min, max: hi };
        assert(interval_wf(narrowed));
        crate::hittable::lemma_hit_t_in_range(objs[objs.len() - 1], r, narrowed);
    }
}

/// When every member's box sits inside a box the ray misses, the fold finds
/// nothing.
pub proof fn lemma_fold_all_miss(objs: Seq<Hittable>, r: Ray, ray_t: Interval,
    outer: crate::aabb::AABB)
    requires
        forall|i: int| 0 <= i < objs.len() ==> wf(#[trigger] objs[i]),
        forall|i: int| 0 <= i < objs.len() ==> crate::hittable::box_contains(outer,
            crate::hittable::bbox_of(#[trigger] objs[i])),
        ray_wf(r),
        interval_wf(ray_t),
        !crate::aabb::slab_hit_spec(outer, r, ray_t),
    ensures
        list_fold_spec(objs, r, ray_t) is None,
    decreases objs,
{
    if objs.len() > 0 {
        lemma_fold_all_miss(objs.drop_last(), r, ray_t, outer);
        let narrowed = Interval { min: ray_t.min, max: ray_t.max };
        assert(narrowed == ray_t);
        crate::hittable::lemma_box_miss(objs[objs.len() - 1], r, ray_t, outer);
    }
}

/// Folding over a concatenation is folding over the first part, then the
/// second over the interval narrowed to the first part's best hit.
pub proof fn lemma_fold_append(s1: Seq<Hittable>, s2: Seq<Hittable>, r: Ray, ray_t: Interval)
    ensures
        list_fold_spec(s1 + s2, r, ray_t) == (match list_fold_spec(s1, r, ray_t) {
            None => list_fold_spec(s2, r, ray_t),
            Some(rec) => match list_fold_spec(s2, r,
                Interval { min: ray_t.min, max: rec.t }) {
                None => Some(rec),
                Some(rr) => Some(rr),
            },
        }),
    decreases s2.len(),
{
    if s2.len() == 0 {
        assert(s1 + s2 =~= s1);
        match list_fold_spec(s1, r, ray_t) {
            None => {},
            Some(rec) => {
                assert(list_fold_spec(s2, r, Interval { min: ray_t.min, max: rec.t })
                    is None);
            },
        }
    } else {
        let s2p = s2.drop_last();
        let e = s2[s2.len() - 1];
        assert((s1 + s2).drop_last() =~= s1 + s2p);
        assert((s1 + s2)[(s1 + s2).len() - 1] == e);
        lemma_fold_append(s1, s2p, r, ray_t);
        match list_fold_spec(s1, r, ray_t) {
            None => {
                assert(list_fold_spec(s1 + s2p, r, ray_t) == list_fold_spec(s2p, r, ray_t));
            },
            Some(rec) => {
                let narrow = Interval { min: ray_t.min, max: rec.t };
                match list_fold_spec(s2p, r, narrow) {
                    None => {},
                    Some(rr2) => {},
                }
            },
        }
    }
}

} // verus!
