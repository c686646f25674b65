use pathtracer::common::{clamp, fxdiv, fxmul, isqrt, saturate};
use pathtracer::interval::Interval;
use pathtracer::ray::Ray;
use pathtracer::tga::{get_tga_header, parse_tga_header};
use pathtracer::vec3::{cross, dot, linear_to_srgb, lerp, normalize, reflect, Vec3};

fn v(x: i64, y: i64, z: i64) -> Vec3 {
    Vec3 { x, y, z }
}

#[test]
fn tga_header_layout() {
    let h = get_tga_header(800, 600);
    assert_eq!(h.len(), 18);
    assert_eq!(h[0], 0);
    assert_eq!(h[1], 0);
    assert_eq!(h[2], 2);
    for i in 3..12 {
        assert_eq!(h[i], 0);
    }
    assert_eq!(h[12], (800 % 256) as u8);
    assert_eq!(h[13], (800 / 256) as u8);
    assert_eq!(h[14], (600 % 256) as u8);
    assert_eq!(h[15], (600 / 256) as u8);
    assert_eq!(h[16], 24);
    assert_eq!(h[17], 0);
}

#[test]
fn tga_header_round_trip() {
    let h = get_tga_header(1920, 1080);
    let parsed = parse_tga_header(&h).unwrap();
    assert_eq!(parsed, (1920, 1080, 3));
    let short = vec![0u8; 10];
    assert!(parse_tga_header(&short).is_none());
}

#[test]
fn scalar_helpers() {
    assert_eq!(clamp(5, 0, 10), 5);
    assert_eq!(clamp(-5, 0, 10), 0);
    assert_eq!(clamp(50, 0, 10), 10);
    assert_eq!(saturate(2000), 1024);
    assert_eq!(saturate(-3), 0);
    assert_eq!(fxmul(2048, 512), 1024); // 2 * 0.5 == 1
    assert_eq!(fxdiv(2048, 512), 4096); // 2 / 0.5 == 4
    assert_eq!(isqrt(1048576), 1024);
    assert_eq!(isqrt(2), 1);
    assert_eq!(isqrt(0), 0);
}

#[test]
fn srgb_encoding_is_square_root() {
    assert_eq!(linear_to_srgb(1024), 1024); // one maps to one
    assert_eq!(linear_to_srgb(256), 512); // a quarter maps to a half
    assert_eq!(linear_to_srgb(0), 0);
}

#[test]
fn vector_algebra() {
    let a = v(1024, 0, 0);
    let b = v(0, 1024, 0);
    assert_eq!(dot(&a, &b), 0);
    assert_eq!(dot(&a, &a), 1024 * 1024);
    assert_eq!(cross(&a, &b), v(0, 0, 1024 * 1024));
    assert_eq!(a.add(&b), v(1024, 1024, 0));
    assert_eq!(a.sub(&b), v(1024, -1024, 0));
    assert_eq!(a.neg(), v(-1024, 0, 0));
    assert_eq!(a.scale(512), v(512, 0, 0));
    assert_eq!(v(512, 512, 0).mul(&v(512, 1024, 1024)), v(256, 512, 0));
    assert_eq!(v(2048, 0, 0).div(2048), v(1024, 0, 0));
    assert_eq!(normalize(v(2048, 0, 0)), v(1024, 0, 0));
    assert_eq!(v(3072, 4096, 0).length(), 5120); // a 3-4-5 triangle
    assert!(v(0, 0, 0).near_zero());
    assert!(!v(1, 0, 0).near_zero());
}

#[test]
fn reflection_mirrors_about_normal() {
    let d = v(724, -724, 0); // heading down at forty-five degrees
    let n = v(0, 1024, 0);
    let r = reflect(&d, &n);
    assert_eq!(r.x, 724);
    assert_eq!(r.y, 724);
    assert_eq!(r.z, 0);
}

#[test]
fn lerp_interpolates() {
    let a = v(0, 0, 0);
    let b = v(1024, 2048, 0);
    assert_eq!(lerp(&a, &b, 0), a);
    assert_eq!(lerp(&a, &b, 1024), b);
    assert_eq!(lerp(&a, &b, 512), v(512, 1024, 0));
}

#[test]
fn interval_operations() {
    let i = Interval { min: 0, max: 1024 };
    assert!(i.contains(0) && i.contains(1024) && i.contains(512));
    assert!(!i.contains(-1) && !i.contains(1025));
    assert!(i.surrounds(512) && !i.surrounds(0) && !i.surrounds(1024));
    assert_eq!(i.size(), 1024);
    let e = i.expand(512);
    assert_eq!((e.min, e.max), (-256, 1280));
    let u = i.add(&Interval { min: -512, max: 256 });
    assert_eq!((u.min, u.max), (-512, 1024));
    let s = i.shift(100);
    assert_eq!((s.min, s.max), (100, 1124));
}

#[test]
fn ray_at_walks_the_parameter() {
    let r = Ray { origin: v(1024, 0, 0), direction: v(1024, -2048, 0), time: 0 };
    assert_eq!(r.at(0), v(1024, 0, 0));
    assert_eq!(r.at(1024), v(2048, -2048, 0));
    assert_eq!(r.at(512), v(1536, -1024, 0));
}

#[test]
fn random_vectors_stay_bounded() {
    for _ in 0..50 {
        let u = pathtracer::vec3::random_unit_vector();
        assert!(u.x.abs() <= 1024 && u.y.abs() <= 1024 && u.z.abs() <= 1024);
        let d = pathtracer::vec3::random_in_unit_disk();
        assert_eq!(d.z, 0);
        assert!(dot(&d, &d) < 1024 * 1024);
        let n = v(0, 1024, 0);
        let hs = pathtracer::vec3::randon_in_hemisphere(&n);
        assert!(dot(&hs, &n) >= 0);
    }
}
