use pathtracer::aabb::AABB;
use pathtracer::bvh::BVHNode;
use pathtracer::hittable::{HitRecord, Hittable};
use pathtracer::hittable_list::HittableList;
use pathtracer::interval::Interval;
use pathtracer::ray::Ray;
use pathtracer::sphere::Sphere;
use pathtracer::quad::Quad;
use pathtracer::vec3::Vec3;

fn v(x: i64, y: i64, z: i64) -> Vec3 {
    Vec3 { x, y, z }
}

fn ray(ox: i64, oy: i64, oz: i64, dx: i64, dy: i64, dz: i64) -> Ray {
    Ray { origin: v(ox, oy, oz), direction: v(dx, dy, dz), time: 0 }
}

fn full() -> Interval {
    Interval { min: 1, max: 0x100_0000_0000 }
}

#[test]
fn aabb_hit_positive_direction() {
    let b = AABB::new(&v(1024, 1024, 1024), &v(2048, 2048, 2048));
    let r = ray(0, 1536, 1536, 1024, 0, 0);
    assert!(b.hit(&r, full()));
}

#[test]
fn aabb_hit_negative_direction() {
    // the swap logic for negative components: approach from above
    let b = AABB::new(&v(1024, 1024, 1024), &v(2048, 2048, 2048));
    let r = ray(3072, 1536, 1536, -1024, 0, 0);
    assert!(b.hit(&r, full()));
    // same ray pointed away misses
    let r2 = ray(3072, 1536, 1536, 1024, 0, 0);
    assert!(!b.hit(&r2, full()));
}

#[test]
fn aabb_miss_parallel_outside_slab() {
    let b = AABB::new(&v(1024, 1024, 1024), &v(2048, 2048, 2048));
    // travels parallel to the x slabs, origin outside them in y
    let r = ray(0, 0, 1536, 1024, 0, 0);
    assert!(!b.hit(&r, full()));
}

#[test]
fn aabb_query_interval_cuts_hit() {
    let b = AABB::new(&v(1024, 1024, 1024), &v(2048, 2048, 2048));
    let r = ray(0, 1536, 1536, 1024, 0, 0);
    // the box starts one unit along the ray; a query ending before never sees it
    assert!(!b.hit(&r, Interval { min: 1, max: 512 }));
    assert!(b.hit(&r, Interval { min: 1, max: 2048 }));
}

#[test]
fn sphere_through_center_exact_hit() {
    // unit sphere at the origin, ray along the x axis from three units out
    let s = Sphere::new_static(v(0, 0, 0), 1024, 0);
    let r = ray(-3072, 0, 0, 1024, 0, 0);
    let mut rec = HitRecord::zeroed();
    assert!(s.hit(&r, full(), &mut rec));
    assert_eq!(rec.t, 2048); // two units to the near surface
    assert_eq!(rec.p, v(-1024, 0, 0));
    assert_eq!(rec.normal, v(-1024, 0, 0)); // parallel to p - center
    assert!(rec.front_face);
}

#[test]
fn sphere_tangent_single_root() {
    // grazing the top of the unit sphere: the two roots coincide
    let s = Sphere::new_static(v(0, 0, 0), 1024, 0);
    let r = ray(-3072, 1024, 0, 1024, 0, 0);
    let mut rec = HitRecord::zeroed();
    assert!(s.hit(&r, full(), &mut rec));
    assert_eq!(rec.t, 3072);
    assert_eq!(rec.p, v(0, 1024, 0));
}

#[test]
fn sphere_miss() {
    let s = Sphere::new_static(v(0, 0, 0), 1024, 0);
    let r = ray(-3072, 2048, 0, 1024, 0, 0);
    let mut rec = HitRecord::zeroed();
    assert!(!s.hit(&r, full(), &mut rec));
    assert_eq!(rec, HitRecord::zeroed()); // untouched on a miss
}

#[test]
fn sphere_far_root_from_inside() {
    // starting inside, the near root is behind: the far root is reported
    let s = Sphere::new_static(v(0, 0, 0), 1024, 0);
    let r = ray(0, 0, 0, 1024, 0, 0);
    let mut rec = HitRecord::zeroed();
    assert!(s.hit(&r, full(), &mut rec));
    assert_eq!(rec.t, 1024);
    assert!(!rec.front_face); // struck from inside
}

#[test]
fn moving_sphere_center_interpolates() {
    let s = Sphere::new_moving(v(0, 0, 0), v(1024, 0, 0), 512, 0);
    assert_eq!(s.center(0), v(0, 0, 0));
    assert_eq!(s.center(512), v(512, 0, 0));
    assert_eq!(s.center(1024), v(1024, 0, 0));
}

#[test]
fn quad_interior_hit_with_barycentrics() {
    // unit quad in the xy plane, struck in the middle
    let q = Quad::new(v(0, 0, 0), v(1024, 0, 0), v(0, 1024, 0), 0);
    // the edge cross product points toward +z, so approach from +z
    let r = ray(512, 512, 2048, 0, 0, -1024);
    let mut rec = HitRecord::zeroed();
    assert!(q.hit(&r, full(), &mut rec));
    assert_eq!(rec.t, 2048);
    assert_eq!(rec.u, 512);
    assert_eq!(rec.v, 512);
    assert!(rec.front_face);
}

#[test]
fn quad_rejects_outside_footprint() {
    // the same plane is met, but outside the unit barycentric square
    let q = Quad::new(v(0, 0, 0), v(1024, 0, 0), v(0, 1024, 0), 0);
    let r = ray(1536, 512, 2048, 0, 0, -1024);
    let mut rec = HitRecord::zeroed();
    assert!(!q.hit(&r, full(), &mut rec));
    let r2 = ray(512, -512, 2048, 0, 0, -1024);
    assert!(!q.hit(&r2, full(), &mut rec));
}

#[test]
fn quad_rejects_parallel_ray() {
    let q = Quad::new(v(0, 0, 0), v(1024, 0, 0), v(0, 1024, 0), 0);
    let r = ray(512, 512, -2048, 1024, 0, 0);
    let mut rec = HitRecord::zeroed();
    assert!(!q.hit(&r, full(), &mut rec));
}

#[test]
fn list_keeps_closest_hit() {
    let near = Sphere::new_static(v(0, 0, 0), 1024, 1);
    let far = Sphere::new_static(v(8192, 0, 0), 1024, 2);
    let mut l = HittableList::new(Hittable::Sphere(far));
    l.add_obj(Hittable::Sphere(near));
    let r = ray(-4096, 0, 0, 1024, 0, 0);
    let mut rec = HitRecord::zeroed();
    assert!(l.hit(&r, full(), &mut rec));
    assert_eq!(rec.mat, 1); // the nearer sphere wins regardless of order
    assert_eq!(rec.t, 3072);
}

#[test]
fn translate_shifts_hits() {
    let s = Sphere::new_static(v(0, 0, 0), 1024, 0);
    let t = pathtracer::hittable::Translate::new(Hittable::Sphere(s), &v(0, 2048, 0));
    let h = Hittable::Translate(t);
    let r = ray(-4096, 2048, 0, 1024, 0, 0);
    let mut rec = HitRecord::zeroed();
    assert!(h.hit(&r, full(), &mut rec));
    assert_eq!(rec.p, v(-1024, 2048, 0));
    // the untranslated position no longer hits
    let r2 = ray(-4096, 0, 0, 1024, 0, 0);
    assert!(!h.hit(&r2, full(), &mut rec));
}

#[test]
fn rotate_y_quarter_turn() {
    // a sphere on the +x axis, rotated a quarter turn about y, sits on -z
    let s = Sphere::new_static(v(4096, 0, 0), 1024, 0);
    let ry = pathtracer::hittable::RotateY::new(Hittable::Sphere(s), 1024, 0);
    let h = Hittable::RotateY(ry);
    let r = ray(0, 0, -8192, 0, 0, 1024);
    let mut rec = HitRecord::zeroed();
    assert!(h.hit(&r, full(), &mut rec));
    assert_eq!(rec.p.y, 0);
    assert!(rec.p.z < 0);
}

#[test]
fn bvh_root_box_is_union_of_leaves() {
    // three primitives with disjoint boxes
    let a = Sphere::new_static(v(-8192, 0, 0), 1024, 0);
    let b = Sphere::new_static(v(0, 4096, 0), 512, 1);
    let c = Sphere::new_static(v(8192, 0, 2048), 2048, 2);
    let boxes = [
        Hittable::Sphere(a).bounding_box(),
        Hittable::Sphere(b).bounding_box(),
        Hittable::Sphere(c).bounding_box(),
    ];
    let objs = vec![Hittable::Sphere(a), Hittable::Sphere(b), Hittable::Sphere(c)];
    let node = BVHNode::new(objs);
    let root = node.bounding_box();
    let mins = |f: fn(&AABB) -> i64| boxes.iter().map(f).min().unwrap();
    let maxs = |f: fn(&AABB) -> i64| boxes.iter().map(f).max().unwrap();
    assert_eq!(root.x.min, mins(|b| b.x.min));
    assert_eq!(root.x.max, maxs(|b| b.x.max));
    assert_eq!(root.y.min, mins(|b| b.y.min));
    assert_eq!(root.y.max, maxs(|b| b.y.max));
    assert_eq!(root.z.min, mins(|b| b.z.min));
    assert_eq!(root.z.max, maxs(|b| b.z.max));
}

#[test]
fn bvh_matches_brute_force_on_sample_rays() {
    // a fixed scene; the hierarchy must report exactly what the list reports
    let mut prims: Vec<Hittable> = Vec::new();
    let mut idx = 0;
    for gx in -2..3i64 {
        for gz in -2..3i64 {
            prims.push(Hittable::Sphere(Sphere::new_static(
                v(gx * 4096, ((gx + gz) % 3) * 1024, gz * 4096),
                512 + 128 * ((gx + 2 * gz + 8) % 4),
                idx,
            )));
            idx += 1;
        }
    }
    let mut list = HittableList::new_empty();
    for p in prims.iter() {
        list.add_obj(clone_prim(p));
    }
    let node = BVHNode::new(prims);
    let bvh = Hittable::Node(node);
    let lst = Hittable::List(list);

    // a deterministic sample of rays from varied origins and directions
    let mut k: i64 = 1;
    for _ in 0..200 {
        k = (k * 1103515245 + 12345) % 2147483648;
        let ox = (k % 20480) - 10240;
        k = (k * 1103515245 + 12345) % 2147483648;
        let oy = (k % 8192) - 4096;
        k = (k * 1103515245 + 12345) % 2147483648;
        let oz = (k % 20480) - 10240;
        k = (k * 1103515245 + 12345) % 2147483648;
        let dx = (k % 2048) - 1024;
        k = (k * 1103515245 + 12345) % 2147483648;
        let dy = (k % 2048) - 1024;
        k = (k * 1103515245 + 12345) % 2147483648;
        let dz = (k % 2048) - 1024;
        let r = ray(ox, oy, oz, dx, dy, dz);
        let mut rec_a = HitRecord::zeroed();
        let mut rec_b = HitRecord::zeroed();
        let hit_a = bvh.hit(&r, full(), &mut rec_a);
        let hit_b = lst.hit(&r, full(), &mut rec_b);
        assert_eq!(hit_a, hit_b);
        if hit_a {
            assert_eq!(rec_a.t, rec_b.t);
            assert_eq!(rec_a.p, rec_b.p);
            assert_eq!(rec_a.normal, rec_b.normal);
            assert_eq!(rec_a.mat, rec_b.mat);
        }
    }
}

fn clone_prim(h: &Hittable) -> Hittable {
    match h {
        Hittable::Sphere(s) => Hittable::Sphere(*s),
        _ => panic!("only primitives are cloned here"),
    }
}

#[test]
fn quad_box_spans_all_four_corners() {
    // edge vectors with opposite-sign components: the far corners q+u and
    // q+v stick out beyond the span of q and q+u+v alone
    let q = Quad::new(v(0, 0, 0), v(2048, 0, 0), v(-2048, 2048, 0), 0);
    // the plane point near the corner q+u lies inside the footprint
    let r = ray(1843, 102, 2048, 0, 0, -1024);
    let mut rec = HitRecord::zeroed();
    assert!(q.hit(&r, full(), &mut rec));
    assert_eq!(rec.t, 2048);
    // and the corner itself sits inside the stored box
    let b = q.bbox;
    assert!(b.x.min <= -2048 && 2048 <= b.x.max);
    assert!(b.y.min <= 0 && 2048 <= b.y.max);
}
