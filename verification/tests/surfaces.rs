use pathtracer::camera::{write_color, Camera};
use pathtracer::hittable::{HitRecord, Hittable};
use pathtracer::material::{Lambertian, Material};
use pathtracer::quad::{is_interior, make_box, make_cube};
use pathtracer::ray::Ray;
use pathtracer::sphere::{get_sphere_uvw, Sphere};
use pathtracer::vec3::{dot, Color, Vec3};

fn v(x: i64, y: i64, z: i64) -> Vec3 {
    Vec3 { x, y, z }
}

#[test]
fn is_interior_gates_and_records_coordinates() {
    let mut rec = HitRecord::zeroed();
    assert!(is_interior(100, 900, &mut rec));
    assert_eq!((rec.u, rec.v), (100, 900));
    assert!(!is_interior(-1, 900, &mut rec));
    assert!(!is_interior(100, 1025, &mut rec));
    assert_eq!((rec.u, rec.v), (100, 900)); // untouched on rejection
}

#[test]
fn box_has_six_faces_and_encloses_its_volume() {
    let b = make_box(&v(0, 0, 0), &v(2048, 1024, 3072), 0);
    assert_eq!(b.objects.len(), 6);
    let h = Hittable::List(b);
    // a ray entering the box from outside strikes a face
    let r = Ray { origin: v(1024, 512, 8192), direction: v(0, 0, -1024), time: 0 };
    let mut rec = HitRecord::zeroed();
    assert!(h.hit(&r, positive_interval(), &mut rec));
    assert_eq!(rec.p.z, 3072);

    let cube = make_cube(0);
    assert_eq!(cube.objects.len(), 6);
}

fn positive_interval() -> pathtracer::interval::Interval {
    pathtracer::interval::Interval { min: 1, max: 0x100_0000_0000 }
}

#[test]
fn set_face_normal_orients_against_the_ray() {
    let mut rec = HitRecord::zeroed();
    let r = Ray { origin: v(0, 4096, 0), direction: v(0, -1024, 0), time: 0 };
    rec.set_face_normal(&r, &v(0, 1024, 0));
    assert!(rec.front_face);
    assert_eq!(rec.normal, v(0, 1024, 0));
    rec.set_face_normal(&r, &v(0, -1024, 0));
    assert!(!rec.front_face);
    assert_eq!(rec.normal, v(0, 1024, 0)); // flipped to face the ray
}

#[test]
fn sphere_uv_follows_the_spherical_chart() {
    // the +x normal sits mid-azimuth on the equator
    assert_eq!(get_sphere_uvw(&v(1024, 0, 0)), v(512, 512, 0));
    // the -z normal is a quarter turn further around
    assert_eq!(get_sphere_uvw(&v(0, 0, -1024)), v(768, 512, 0));
    // the +z normal is a quarter turn back
    assert_eq!(get_sphere_uvw(&v(0, 0, 1024)), v(256, 512, 0));
    // the -x normal is the seam
    assert_eq!(get_sphere_uvw(&v(-1024, 0, 0)).x, 0);
    // the poles map to the ends of the polar axis
    assert_eq!(get_sphere_uvw(&v(0, 1024, 0)).y, 1024);
    assert_eq!(get_sphere_uvw(&v(0, -1024, 0)).y, 0);
}

#[test]
fn moving_sphere_is_hit_where_its_time_puts_it() {
    let s = Sphere::new_moving(v(0, 0, 0), v(4096, 0, 0), 1024, 0);
    let hs = Hittable::Sphere(s);
    // at shutter close the sphere has moved four units along x
    let r = Ray { origin: v(4096, 0, 8192), direction: v(0, 0, -1024), time: 1024 };
    let mut rec = HitRecord::zeroed();
    assert!(hs.hit(&r, positive_interval(), &mut rec));
    assert_eq!(rec.p, v(4096, 0, 1024));
    // at shutter open it is still at the origin, so the same ray misses
    let r0 = Ray { origin: v(4096, 0, 8192), direction: v(0, 0, -1024), time: 0 };
    assert!(!hs.hit(&r0, positive_interval(), &mut rec));
}

#[test]
fn color_channels_and_gamma() {
    let c = Color { x: 256, y: 1024, z: 0 };
    assert_eq!((c.r(), c.g(), c.b()), (256, 1024, 0));
    let enc = c.to_srgb();
    assert_eq!(enc, v(512, 1024, 0));
    assert_eq!(Color::white(), v(1024, 1024, 1024));
    assert_eq!(Color::black(), v(0, 0, 0));
    assert_eq!(v(1024, 256, 0).sqrt(), v(1024, 512, 0));
}

#[test]
fn write_color_touches_exactly_one_pixel() {
    let mut buffer = vec![7u8; 12];
    let c = Color { x: 16384, y: 0, z: 16384 };
    write_color(&mut buffer, &c, 16, 3);
    assert_eq!(buffer[0..3], [7, 7, 7]);
    assert_eq!(buffer[3..6], [255, 0, 255]); // blue, green, red order
    assert_eq!(buffer[6..12], [7, 7, 7, 7, 7, 7]);
}

#[test]
fn camera_rays_stay_in_budget() {
    let mut cam = Camera::new();
    cam.origin = v(0, 0, 8192);
    cam.target = v(0, 0, 0);
    cam.image_width = 64;
    cam.image_height = 32;
    cam.vfov_tan_half = 512;
    cam.defocus_tan_half = 2;
    cam.focus_dist = 8192;
    cam.delta_time = 1024;
    cam.initialize();
    for (x, y) in [(0, 0), (63, 31), (32, 16)] {
        let r = cam.get_ray(x, y);
        assert!(r.direction.x.abs() <= 0x800_0000);
        assert!(r.direction.y.abs() <= 0x800_0000);
        assert!(r.direction.z.abs() <= 0x800_0000);
        assert!(r.time >= 0 && r.time <= 1024);
        // the lens sample stays near the configured origin
        assert!((r.origin.x - cam.origin.x).abs() <= 0x300_0000);
    }
    let jitter = cam.pixel_sample_square();
    assert!(jitter.x.abs() <= 0x200_0000);
    let lens = cam.defocus_disk_sample();
    assert!((lens.z - cam.origin.z).abs() <= 0x300_0000);
}

#[test]
fn render_rows_covers_requested_rows() {
    let m = Material::Lambertian(Lambertian::new(v(512, 512, 512)));
    let world = Hittable::Sphere(Sphere::new_static(v(0, 0, 0), 1024, 0));
    let materials = vec![m];
    let mut cam = Camera::new();
    cam.origin = v(0, 0, 8192);
    cam.target = v(0, 0, 0);
    cam.image_width = 6;
    cam.image_height = 5;
    cam.samples_per_pixel = 1;
    cam.max_depth = 4;
    cam.vfov_tan_half = 512;
    cam.defocus_tan_half = 0;
    cam.focus_dist = 8192;
    cam.background = v(700, 800, 1024);
    cam.initialize();
    let rows = cam.render_rows(&world, &materials, 1, 4);
    assert_eq!(rows.len(), 3 * 6 * 3);
}

#[test]
fn random_vec_constructors_respect_ranges() {
    for _ in 0..20 {
        let a = Vec3::random();
        assert!(a.x >= 0 && a.x <= 1024 && a.y >= 0 && a.y <= 1024 && a.z >= 0 && a.z <= 1024);
        let b = Vec3::random_range(-5, 5);
        assert!(b.x.abs() <= 5 && b.y.abs() <= 5 && b.z.abs() <= 5);
        let s = pathtracer::vec3::random_in_unit_sphere();
        assert!(dot(&s, &s) > 0 && dot(&s, &s) < 1024 * 1024);
    }
}
