use vstd::prelude::*;

use crate::aabb::{box_wf, AABB};
use crate::hittable::{
    box_contains, elems, flat_elems, hit_spec, lemma_flat_append, lemma_flat_remove,
    lemma_flat_singleton, rec_wf, wf, HitRecord, Hittable,
};
use crate::hittable_list::HittableList;
use crate::interval::{interval_wf, Interval};
use crate::ray::{ray_wf, Ray};
use vstd::multiset::Multiset;

verus! {

/// One binary node of the bounding-volume hierarchy; its box holds both
/// children's boxes.
pub struct BVHNode {
    pub left: Box<Hittable>,
    pub right: Box<Hittable>,
    pub bbox: AABB,
}

/// What the traversal relies on: sound children, and a node box that is
/// exactly the union of its children's boxes (which in particular contains
/// each of them; the containment conjuncts are what pruning soundness
/// uses directly).
pub open spec fn node_wf(n: BVHNode) -> bool
    decreases n,
{
    &&& wf(*n.left)
    &&& wf(*n.right)
    &&& box_wf(n.bbox)
    &&& n.bbox == crate::aabb::box_union(crate::hittable::bbox_of(*n.left),
        crate::hittable::bbox_of(*n.right))
    &&& box_contains(n.bbox, crate::hittable::bbox_of(*n.left))
    &&& box_contains(n.bbox, crate::hittable::bbox_of(*n.right))
}

/// The minimum bound of a box along axis 0, 1 or 2.
pub open spec fn axis_min_spec(b: AABB, axis: int) -> int {
    if axis == 0 {
        b.x.min as int
    } else if axis == 1 {
        b.y.min as int
    } else {
        b.z.min as int
    }
}

/// The two boxes are ordered by their minimum bound along some axis.
pub open spec fn axis_ordered(a: AABB, b: AABB, axis: int) -> bool {
    &&& 0 <= axis < 3
    &&& axis_min_spec(a, axis) <= axis_min_spec(b, axis)
}

/// The mirror of the node traversal: reject on the node box, search the left
/// subtree over the full interval, then the right subtree over the interval
/// narrowed to the left hit.
pub open spec fn node_hit_spec(n: BVHNode, r: Ray, ray_t: Interval) -> Option<HitRecord>
    decreases n,
{
    if !crate::aabb::slab_hit_spec(n.bbox, r, ray_t) {
        None
    } else {
        let left = hit_spec(*n.left, r, ray_t);
        let lim = match left {
            Some(rec) => rec.t,
            None => ray_t.max,
        };
        match hit_spec(*n.right, r, Interval { min: ray_t.min, max: lim }) {
            Some(rr) => Some(rr),
            None => left,
        }
    }
}

impl BVHNode {
    /// Builds the hierarchy over a whole aggregate.
    pub fn new_list(hlist: HittableList) -> (node: BVHNode)
        requires
            wf(Hittable::List(hlist)),
            hlist.objects@.len() >= 1,
        ensures
            node_wf(node),
    {
        BVHNode::new(hlist.objects)
    }

    /// Builds a balanced node over the given primitives: choose an axis at
    /// random, order the primitives by that axis's minimum bound, split at
    /// the middle and recurse; subtrees of one primitive are that primitive
    /// itself.  A singleton input becomes a leaf whose right side is an
    /// empty aggregate (which never reports a hit).
    pub fn new(objects: Vec<Hittable>) -> (node: BVHNode)
        requires
            objects@.len() >= 1,
            forall|i: int| 0 <= i < objects@.len() ==> wf(#[trigger] objects@[i]),
        ensures
            node_wf(node),
            objects@.len() >= 2 ==> elems(Hittable::Node(node)).to_multiset()
                =~= flat_elems(objects@).to_multiset(),
            objects@.len() == 1 ==> {
                &&& *node.left == objects@[0]
                &&& (*node.right) is List
                &&& (*node.right)->List_0.objects@.len() == 0
                &&& crate::hittable::bbox_of(*node.right) == crate::aabb::empty_box()
                &&& node.bbox == crate::aabb::box_union(crate::hittable::bbox_of(
                    objects@[0]), crate::aabb::empty_box())
            },
            objects@.len() == 2 ==> {
                &&& ((*node.left == objects@[0] && *node.right == objects@[1])
                    || (*node.left == objects@[1] && *node.right == objects@[0]))
                &&& exists|axis: int| #[trigger] axis_ordered(crate::hittable::bbox_of(
                    *node.left), crate::hittable::bbox_of(*node.right), axis)
            },
            all_primitive(objects@) ==> bvh_height(Hittable::Node(node))
                <= log2_up(objects@.len() as int) + 1,
        decreases objects@.len(), 0int,
    {
        let ghost orig = objects@;
        let mut objects = objects;
        let axis = crate::rng::rand_range(0, 2) as usize;

        if objects.len() == 1 {
            let first = objects.remove(0);
            let empty = Hittable::List(HittableList::new_empty());
            proof {
                crate::hittable::lemma_wf_box(first);
                crate::hittable::lemma_wf_box(empty);
            }
            let bbox = first.bounding_box().add(&empty.bounding_box());
            let node = BVHNode { left: Box::new(first), right: Box::new(empty), bbox };
            proof {
                if all_primitive(orig) {
                    assert(!(orig[0] is Node));
                    assert(bvh_height(*node.left) == 0);
                    assert(bvh_height(*node.right) == 0);
                }
            }
            node
        } else if objects.len() == 2 {
            let second = objects.remove(1);
            let first = objects.remove(0);
            let swap = box_axis_min(&second.bounding_box(), axis)
                < box_axis_min(&first.bounding_box(), axis);
            let (a, b) = if swap {
                (second, first)
            } else {
                (first, second)
            };
            proof {
                crate::hittable::lemma_wf_box(a);
                crate::hittable::lemma_wf_box(b);
            }
            let bbox = a.bounding_box().add(&b.bounding_box());
            let node = BVHNode { left: Box::new(a), right: Box::new(b), bbox };
            proof {
                broadcast use vstd::seq_lib::lemma_multiset_commutative;
                broadcast use vstd::multiset::group_multiset_axioms;

                broadcast use vstd::seq_lib::group_to_multiset_ensures;
                broadcast use vstd::multiset::lemma_multiset_empty_len;

                lemma_flat_remove(orig, 1);
                lemma_flat_remove(orig.remove(1), 0);
                assert(orig.remove(1).remove(0) =~= Seq::<Hittable>::empty());
                assert(flat_elems(Seq::<Hittable>::empty()).to_multiset()
                    =~= Multiset::<Hittable>::empty());
                assert(elems(Hittable::Node(node)) == elems(a) + elems(b));
                assert(elems(Hittable::Node(node)).to_multiset()
                    =~= flat_elems(orig).to_multiset());
                assert(axis_ordered(crate::hittable::bbox_of(*node.left),
                    crate::hittable::bbox_of(*node.right), axis as int));
                if all_primitive(orig) {
                    assert(!(orig[0] is Node) && !(orig[1] is Node));
                    assert(bvh_height(*node.left) == 0);
                    assert(bvh_height(*node.right) == 0);
                    assert(log2_up(2) == 1 + log2_up(1));
                }
            }
            node
        } else {
            let sorted = sort_by_axis_min(objects, axis);
            let mid = sorted.len() / 2;
            let (lo, hi) = split_off(sorted, mid);
            let left = build_subtree(lo);
            let right = build_subtree(hi);
            proof {
                crate::hittable::lemma_wf_box(left);
                crate::hittable::lemma_wf_box(right);
            }
            let bbox = left.bounding_box().add(&right.bounding_box());
            let node = BVHNode { left: Box::new(left), right: Box::new(right), bbox };
            proof {
                broadcast use vstd::seq_lib::lemma_multiset_commutative;
                broadcast use vstd::multiset::group_multiset_axioms;

                assert(elems(Hittable::Node(node)) == elems(left) + elems(right));
                if all_primitive(orig) {
                    let n = orig.len() as int;
                    assert(log2_up(n) == 1 + log2_up((n + 1) / 2));
                    lemma_log2_up_mono(n / 2, (n + 1) / 2);
                    assert(bvh_height(*node.left) <= log2_up(n / 2) + 1);
                    assert(bvh_height(*node.right) <= log2_up((n + 1) / 2) + 1);
                }
            }
            node
        }
    }

    /// Traversal with subtree pruning; mirrors `node_hit_spec`.
    pub fn hit(&self, r: &Ray, ray_t: Interval, rec: &mut HitRecord) -> (res: bool)
        requires
            node_wf(*self),
            ray_wf(*r),
            interval_wf(ray_t),
        ensures
            match node_hit_spec(*self, *r, ray_t) {
                Some(rr) => res && *final(rec) == rr,
                None => !res && *final(rec) == *old(rec),
            },
            res ==> rec_wf(*final(rec), ray_t),
        decreases *self,
    {
        if !self.bbox.hit(r, ray_t) {
            return false;
        }
        let hit_left = self.left.hit(r, ray_t, rec);
        let t_max = if hit_left {
            rec.t
        } else {
            ray_t.max
        };
        let hit_right = self.right.hit(r, Interval { min: ray_t.min, max: t_max }, rec);
        hit_left || hit_right
    }

    pub fn bounding_box(&self) -> (b: AABB)
        ensures
            b == self.bbox,
    {
        self.bbox
    }
}

/// A subtree over the given primitives: the primitive itself when there is
/// only one, otherwise a node built over them.
fn build_subtree(objects: Vec<Hittable>) -> (h: Hittable)
    requires
        objects@.len() >= 1,
        forall|i: int| 0 <= i < objects@.len() ==> wf(#[trigger] objects@[i]),
    ensures
        wf(h),
        elems(h).to_multiset() =~= flat_elems(objects@).to_multiset(),
        all_primitive(objects@) ==> bvh_height(h) <= log2_up(objects@.len() as int) + 1,
    decreases objects@.len(), 1int,
{
    let ghost orig = objects@;
    let mut objects = objects;
    if objects.len() == 1 {
        let e = objects.remove(0);
        proof {
            assert(orig =~= seq![e]);
            lemma_flat_singleton(e);
        }
        e
    } else {
        Hittable::Node(BVHNode::new(objects))
    }
}

/// The hierarchy traversal is exactly brute force: on any well-formed node,
/// for every ray and query interval, the traversal reports the same hit that
/// the narrowing linear fold over the tree's primitive sequence reports.
/// Pruned subtrees never lose a hit, because a primitive that reports an
/// intersection makes its own box's slab test succeed, and every ancestor
/// box contains it.
pub proof fn lemma_node_traversal_is_brute_force(n: BVHNode, r: Ray, ray_t: Interval)
    requires
        node_wf(n),
        ray_wf(r),
        interval_wf(ray_t),
    ensures
        node_hit_spec(n, r, ray_t) == crate::hittable_list::list_fold_spec(
            elems(Hittable::Node(n)), r, ray_t),
{
    crate::hittable::lemma_bvh_matches_brute_force(Hittable::Node(n), r, ray_t);
    assert(hit_spec(Hittable::Node(n), r, ray_t) == node_hit_spec(n, r, ray_t));
}

/// The number of hierarchy levels above non-node objects.
pub open spec fn bvh_height(h: Hittable) -> nat
    decreases h,
{
    match h {
        Hittable::Node(n) => 1 + if bvh_height(*n.left) > bvh_height(*n.right) {
            bvh_height(*n.left)
        } else {
            bvh_height(*n.right)
        },
        _ => 0,
    }
}

/// The ceiling of the base-two logarithm of a count.
pub open spec fn log2_up(n: int) -> nat
    decreases n,
{
    if n <= 1 {
        0
    } else {
        1 + log2_up((n + 1) / 2)
    }
}

proof fn lemma_log2_up_mono(m: int, n: int)
    requires
        0 <= m <= n,
    ensures
        log2_up(m) <= log2_up(n),
    decreases n,
{
    if n > 1 && m > 1 {
        lemma_log2_up_mono((m + 1) / 2, (n + 1) / 2);
    }
}

/// No hierarchy node among a run of objects.
pub open spec fn all_primitive(objs: Seq<Hittable>) -> bool {
    forall|i: int| 0 <= i < objs.len() ==> !((#[trigger] objs[i]) is Node)
}

/// The union of the boxes of a non-empty run of objects, left to right.
pub open spec fn boxes_union(objs: Seq<Hittable>) -> AABB
    decreases objs,
{
    if objs.len() <= 1 {
        crate::hittable::bbox_of(objs[0])
    } else {
        crate::aabb::box_union(boxes_union(objs.drop_last()),
            crate::hittable::bbox_of(objs[objs.len() - 1]))
    }
}

/// The union of boxes is associative.
proof fn lemma_box_union_assoc(a: AABB, b: AABB, c: AABB)
    ensures
        crate::aabb::box_union(crate::aabb::box_union(a, b), c)
            == crate::aabb::box_union(a, crate::aabb::box_union(b, c)),
{
}

/// A primitive sequence is never empty.
proof fn lemma_elems_nonempty(h: Hittable)
    ensures
        elems(h).len() >= 1,
    decreases h,
{
    match h {
        Hittable::Node(n) => {
            lemma_elems_nonempty(*n.left);
        },
        _ => {},
    }
}

/// Unioning over a concatenation unions the two parts.
proof fn lemma_boxes_union_append(s1: Seq<Hittable>, s2: Seq<Hittable>)
    requires
        s1.len() >= 1,
        s2.len() >= 1,
    ensures
        boxes_union(s1 + s2) == crate::aabb::box_union(boxes_union(s1), boxes_union(s2)),
    decreases s2.len(),
{
    let e = s2[s2.len() - 1];
    assert((s1 + s2)[(s1 + s2).len() - 1] == e);
    if s2.len() == 1 {
        assert((s1 + s2).drop_last() =~= s1);
    } else {
        let s2p = s2.drop_last();
        assert((s1 + s2).drop_last() =~= s1 + s2p);
        lemma_boxes_union_append(s1, s2p);
        lemma_box_union_assoc(boxes_union(s1), boxes_union(s2p),
            crate::hittable::bbox_of(e));
    }
}

/// The box of a well-formed tree is exactly the union of the boxes of its
/// primitives; in particular a hierarchy's root box equals the union of its
/// leaf boxes.
pub proof fn lemma_tree_box_is_leaf_box_union(h: Hittable)
    requires
        wf(h),
    ensures
        crate::hittable::bbox_of(h) == boxes_union(elems(h)),
    decreases h,
{
    match h {
        Hittable::Node(n) => {
            assert(node_wf(n));
            lemma_tree_box_is_leaf_box_union(*n.left);
            lemma_tree_box_is_leaf_box_union(*n.right);
            lemma_elems_nonempty(*n.left);
            lemma_elems_nonempty(*n.right);
            lemma_boxes_union_append(elems(*n.left), elems(*n.right));
            assert(elems(h) == elems(*n.left) + elems(*n.right));
        },
        _ => {
            assert(elems(h) =~= seq![h]);
        },
    }
}

/// The minimum bound of the box along the chosen axis.
fn box_axis_min(b: &AABB, axis: usize) -> (r: i64)
    requires
        axis <= 2,
    ensures
        r == if axis == 0 { b.x.min } else if axis == 1 { b.y.min } else { b.z.min },
{
    if axis == 0 {
        b.x.min
    } else if axis == 1 {
        b.y.min
    } else {
        b.z.min
    }
}

/// Orders the primitives by the minimum bound of their boxes along `axis`
/// (selection by repeated extraction; the order itself is a performance
/// matter and is not part of any contract).
fn sort_by_axis_min(objects: Vec<Hittable>, axis: usize) -> (r: Vec<Hittable>)
    requires
        axis <= 2,
        forall|i: int| 0 <= i < objects@.len() ==> wf(#[trigger] objects@[i]),
    ensures
        r@.len() == objects@.len(),
        forall|i: int| 0 <= i < r@.len() ==> wf(#[trigger] r@[i]),
        flat_elems(r@).to_multiset() =~= flat_elems(objects@).to_multiset(),
        all_primitive(objects@) ==> all_primitive(r@),
{
    let ghost prims = all_primitive(objects@);
    let mut src = objects;
    let mut out: Vec<Hittable> = Vec::new();
    let ghost total = src@.len();
    let ghost whole = flat_elems(src@).to_multiset();
    proof {
        broadcast use vstd::multiset::group_multiset_axioms;
            broadcast use vstd::seq_lib::group_to_multiset_ensures;
            broadcast use vstd::multiset::lemma_multiset_empty_len;

        assert(flat_elems(out@) =~= Seq::<Hittable>::empty());
        assert(flat_elems(out@).to_multiset() =~= Multiset::<Hittable>::empty());
    }
    while src.len() > 0
        invariant
            axis <= 2,
            src@.len() + out@.len() == total,
            forall|i: int| 0 <= i < src@.len() ==> wf(#[trigger] src@[i]),
            forall|i: int| 0 <= i < out@.len() ==> wf(#[trigger] out@[i]),
            flat_elems(out@).to_multiset().add(flat_elems(src@).to_multiset()) =~= whole,
            prims ==> all_primitive(src@),
            prims ==> all_primitive(out@),
        decreases src@.len(),
    {
        let mut best: usize = 0;
        let mut j: usize = 1;
        while j < src.len()
            invariant
                0 <= best < src@.len(),
                1 <= j <= src@.len(),
                axis <= 2,
            decreases src@.len() - j,
        {
            if box_axis_min(&src[j].bounding_box(), axis)
                < box_axis_min(&src[best].bounding_box(), axis) {
                best = j;
            }
            j = j + 1;
        }
        proof {
            broadcast use vstd::multiset::group_multiset_axioms;

            lemma_flat_remove(src@, best as int);
        }
        let ghost out_before = out@;
        let e = src.remove(best);
        out.push(e);
        proof {
            broadcast use vstd::multiset::group_multiset_axioms;

            assert(out@ =~= out_before + seq![e]);
            lemma_flat_append(out_before, seq![e]);
            lemma_flat_singleton(e);
            broadcast use vstd::seq_lib::lemma_multiset_commutative;

        }
    }
    out
}

/// Splits the vector at `mid`: the first part keeps `[0, mid)`, the second
/// gets the rest.
fn split_off(objects: Vec<Hittable>, mid: usize) -> (r: (Vec<Hittable>, Vec<Hittable>))
    requires
        1 <= mid < objects@.len(),
        forall|i: int| 0 <= i < objects@.len() ==> wf(#[trigger] objects@[i]),
    ensures
        r.0@.len() == mid,
        r.1@.len() == objects@.len() - mid,
        forall|i: int| 0 <= i < r.0@.len() ==> wf(#[trigger] r.0@[i]),
        forall|i: int| 0 <= i < r.1@.len() ==> wf(#[trigger] r.1@[i]),
        flat_elems(r.0@).to_multiset().add(flat_elems(r.1@).to_multiset())
            =~= flat_elems(objects@).to_multiset(),
        all_primitive(objects@) ==> all_primitive(r.0@) && all_primitive(r.1@),
{
    let ghost prims = all_primitive(objects@);
    let mut src = objects;
    let mut lo: Vec<Hittable> = Vec::new();
    let ghost total = src@.len();
    let ghost whole = flat_elems(src@).to_multiset();
    proof {
        broadcast use vstd::multiset::group_multiset_axioms;
            broadcast use vstd::seq_lib::group_to_multiset_ensures;
            broadcast use vstd::multiset::lemma_multiset_empty_len;

        assert(flat_elems(lo@) =~= Seq::<Hittable>::empty());
        assert(flat_elems(lo@).to_multiset() =~= Multiset::<Hittable>::empty());
    }
    let mut k: usize = 0;
    while k < mid
        invariant
            k == lo@.len(),
            k <= mid,
            mid < total,
            src@.len() + k == total,
            forall|i: int| 0 <= i < src@.len() ==> wf(#[trigger] src@[i]),
            forall|i: int| 0 <= i < lo@.len() ==> wf(#[trigger] lo@[i]),
            flat_elems(lo@).to_multiset().add(flat_elems(src@).to_multiset()) =~= whole,
            prims ==> all_primitive(src@),
            prims ==> all_primitive(lo@),
        decreases mid - k,
    {
        proof {
            broadcast use vstd::multiset::group_multiset_axioms;

            lemma_flat_remove(src@, 0);
        }
        let ghost lo_before = lo@;
        let e = src.remove(0);
        lo.push(e);
        proof {
            broadcast use vstd::multiset::group_multiset_axioms;

            assert(lo@ =~= lo_before + seq![e]);
            lemma_flat_append(lo_before, seq![e]);
            lemma_flat_singleton(e);
            broadcast use vstd::seq_lib::lemma_multiset_commutative;

        }
        k = k + 1;
    }
    (lo, src)
}

} // verus!
