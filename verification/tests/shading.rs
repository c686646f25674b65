use pathtracer::camera::{color_to_bytes, segment_rows, Camera};
use pathtracer::hittable::{HitRecord, Hittable};
use pathtracer::material::{reflectence, Dielectric, Emiter, Lambertian, Material, Metal};

use pathtracer::ray::Ray;
use pathtracer::sphere::Sphere;
use pathtracer::texture::{CheckerTexture, ImageTexture, SolidColorTexture, Texture};
use pathtracer::vec3::{refract, Color, Vec3};

fn v(x: i64, y: i64, z: i64) -> Vec3 {
    Vec3 { x, y, z }
}

fn surface_rec() -> HitRecord {
    HitRecord {
        p: v(0, 1024, 0),
        normal: v(0, 1024, 0),
        mat: 0,
        t: 2048,
        u: 512,
        v: 256,
        front_face: true,
    }
}

fn incoming() -> Ray {
    Ray { origin: v(0, 4096, 0), direction: v(0, -1024, 0), time: 0 }
}

#[test]
fn lambertian_attenuation_is_albedo() {
    let albedo = v(512, 256, 768);
    let m = Material::Lambertian(Lambertian::new(albedo));
    let rec = surface_rec();
    let mut color = Color { x: -1, y: -1, z: -1 };
    let mut scattered = incoming();
    assert!(m.scatter(&incoming(), &rec, &mut color, &mut scattered));
    assert_eq!(color, albedo);
    assert!(0 <= color.x && color.x <= 1024);
    assert!(0 <= color.y && color.y <= 1024);
    assert!(0 <= color.z && color.z <= 1024);
    assert_eq!(scattered.origin, rec.p);
}

#[test]
fn metal_attenuation_is_albedo_and_reflects() {
    let albedo = v(717, 614, 512);
    let m = Material::Metal(Metal::new(albedo, 0));
    let rec = surface_rec();
    let mut color = Color { x: 0, y: 0, z: 0 };
    let mut scattered = incoming();
    let res = m.scatter(&incoming(), &rec, &mut color, &mut scattered);
    assert_eq!(color, albedo);
    assert!(0 <= color.x && color.x <= 1024);
    assert!(0 <= color.y && color.y <= 1024);
    assert!(0 <= color.z && color.z <= 1024);
    // a head-on ray reflects straight back off a smooth metal
    assert!(res);
    assert!(scattered.direction.y > 0);
    assert_eq!(scattered.direction.x, 0);
    assert_eq!(scattered.direction.z, 0);
}

#[test]
fn metal_roughness_saturates() {
    let m = Metal::new(v(512, 512, 512), 5000);
    assert_eq!(m.roughness, 1024);
    let m2 = Metal::new(v(512, 512, 512), -77);
    assert_eq!(m2.roughness, 0);
}

#[test]
fn dielectric_attenuation_is_white() {
    let m = Material::Dielectric(Dielectric { ior: 1536 });
    let rec = surface_rec();
    let mut color = Color { x: 0, y: 0, z: 0 };
    let mut scattered = incoming();
    assert!(m.scatter(&incoming(), &rec, &mut color, &mut scattered));
    assert_eq!(color, v(1024, 1024, 1024));
    assert_eq!(scattered.origin, rec.p);
}

#[test]
fn refraction_at_unity_index_does_not_bend() {
    // exactly-unit grid directions, normal against the ray: identity
    let uv = v(1024, 0, 0);
    let un = v(-1024, 0, 0);
    assert_eq!(refract(&uv, &un, 1024), uv);
    let grazing = v(0, -1024, 0);
    assert_eq!(refract(&grazing, &v(0, 1024, 0), 1024), grazing);
    let side = v(0, 0, 1024);
    assert_eq!(refract(&side, &v(1024, 0, 0), 1024), side);
}

#[test]
fn emitter_emits_only_front_face() {
    let e = Material::Emiter(Emiter { emission: v(2048, 2048, 1024) });
    let mut rec = surface_rec();
    assert_eq!(e.emitted(&rec), v(2048, 2048, 1024));
    rec.front_face = false;
    assert_eq!(e.emitted(&rec), v(0, 0, 0));
    let mut color = Color { x: 7, y: 7, z: 7 };
    let mut scattered = incoming();
    assert!(!e.scatter(&incoming(), &rec, &mut color, &mut scattered));
    assert_eq!(color, v(7, 7, 7)); // untouched when nothing scatters
}

#[test]
fn reflectence_schlick_values() {
    // head-on: the fifth power vanishes, only r0 squared remains
    assert_eq!(reflectence(1024, 512), 113);
    // grazing: r0sq + (1 - r0sq), up to fixed-point rounding
    let grazing = reflectence(0, 512);
    assert!(grazing >= 1000 && grazing <= 1024, "grazing reflectance {}", grazing);
}

#[test]
fn solid_and_checker_textures() {
    let solid = Texture::Solid(SolidColorTexture { color: v(100, 200, 300) });
    assert_eq!(solid.value(0, 0, 0), v(100, 200, 300));

    let a = v(1024, 0, 0);
    let b = v(0, 1024, 0);
    let ck = Texture::Checker(CheckerTexture::new(a, b, 1024));
    // at scale one, integer coordinates alternate cells
    assert_eq!(ck.value(0, 0, 0), a);
    assert_eq!(ck.value(1024, 0, 0), b);
    assert_eq!(ck.value(1024, 1024, 0), a);
    assert_eq!(ck.value(2048, 1024, 0), b);
}

#[test]
fn image_texture_lookup() {
    // a two-by-one image: left pixel blue, right pixel red (BGR bytes)
    let data = vec![255, 0, 0, 0, 0, 255];
    let img = ImageTexture::new(data, 2, 1);
    let t = Texture::Image(img);
    let left = t.value(0, 0, 0);
    let right = t.value(1024, 0, 0);
    assert_eq!(left, v(0, 0, 1024)); // blue channel full
    assert_eq!(right, v(1024, 0, 0)); // red channel full
}

#[test]
fn color_to_bytes_gamma_and_average() {
    // sixteen samples of full white average to one, encode to 255
    let c = Color { x: 16384, y: 16384, z: 16384 };
    let (b, g, r) = color_to_bytes(&c, 16);
    assert_eq!((b, g, r), (255, 255, 255));
    // a quarter averages to one quarter; sqrt gives one half
    let c2 = Color { x: 4096, y: 0, z: 4096 };
    let (b2, g2, r2) = color_to_bytes(&c2, 16);
    assert_eq!(g2, 0);
    assert_eq!(r2, 127); // 512 * 255 / 1024
    assert_eq!(b2, 127);
}

#[test]
fn segment_rows_partition_covers_image() {
    let height = 1080;
    let workers = 7;
    let mut expected_start = 0;
    for i in 0..workers {
        let (s, e) = segment_rows(height, workers, i);
        assert_eq!(s, expected_start);
        assert!(s <= e && e <= height);
        expected_start = e;
    }
    assert_eq!(expected_start, height);
}

fn unit_sphere_scene() -> (Hittable, Vec<Material>) {
    let m = Material::Lambertian(Lambertian::new(v(512, 512, 512)));
    let s = Sphere::new_static(v(0, 0, 0), 1024, 0);
    (Hittable::Sphere(s), vec![m])
}

fn test_camera(spp: i32) -> Camera {
    let mut cam = Camera::new();
    cam.origin = v(0, 0, 8192);
    cam.target = v(0, 0, 0);
    cam.image_width = 4;
    cam.image_height = 4;
    cam.samples_per_pixel = spp;
    cam.max_depth = 8;
    cam.vfov_tan_half = 512;
    cam.defocus_tan_half = 0;
    cam.focus_dist = 8192;
    cam.background = v(716, 819, 1024);
    cam.initialize();
    cam
}

#[test]
fn render_fills_the_whole_buffer() {
    let (world, materials) = unit_sphere_scene();
    let cam = test_camera(2);
    let buf = cam.render(&world, &materials);
    assert_eq!(buf.len(), 4 * 4 * 3);
}

#[test]
fn ray_color_depth_zero_is_black() {
    let (world, materials) = unit_sphere_scene();
    let cam = test_camera(1);
    let r = Ray { origin: v(0, 0, 8192), direction: v(0, 0, -1024), time: 0 };
    assert_eq!(cam.ray_color(&world, &materials, &r, 0), v(0, 0, 0));
}

#[test]
fn ray_color_miss_returns_background() {
    let (world, materials) = unit_sphere_scene();
    let cam = test_camera(1);
    let r = Ray { origin: v(0, 0, 8192), direction: v(0, 1024, 0), time: 0 };
    assert_eq!(cam.ray_color(&world, &materials, &r, 8), cam.background);
}

#[test]
fn sampling_reduces_pixel_variance() {
    // the statistical convergence check: the variance of a noisy pixel's
    // estimate shrinks as the per-pixel sample count grows
    let (world, materials) = unit_sphere_scene();
    let repeats = 24;
    let var_of = |spp: i32| -> i64 {
        let cam = test_camera(spp);
        let mut values: Vec<i64> = Vec::new();
        for _ in 0..repeats {
            let c = cam.render_pixel(1, 1, &world, &materials);
            values.push(c.x / spp as i64);
        }
        let mean: i64 = values.iter().sum::<i64>() / repeats as i64;
        values.iter().map(|x| (x - mean) * (x - mean)).sum::<i64>() / repeats as i64
    };
    let noisy = var_of(1);
    let smooth = var_of(64);
    assert!(
        smooth <= noisy || noisy == 0,
        "variance did not shrink: one sample {} vs sixty-four {}",
        noisy,
        smooth
    );
}

#[test]
fn lambertian_attenuation_from_checker_texture() {
    let a = v(900, 100, 100);
    let b = v(100, 900, 100);
    let tex = Texture::Checker(CheckerTexture::new(a, b, 1024));
    let m = Material::Lambertian(Lambertian::new_texture(tex));
    let mut rec = surface_rec();
    rec.u = 0;
    rec.v = 0;
    let mut color = Color { x: 0, y: 0, z: 0 };
    let mut scattered = incoming();
    assert!(m.scatter(&incoming(), &rec, &mut color, &mut scattered));
    assert_eq!(color, a);
    rec.u = 1024;
    assert!(m.scatter(&incoming(), &rec, &mut color, &mut scattered));
    assert_eq!(color, b);
}

#[test]
fn metal_zero_roughness_reflects_exactly() {
    let m = Material::Metal(Metal::new(v(512, 512, 512), 0));
    let rec = surface_rec();
    // a forty-five degree incoming direction
    let r_in = Ray { origin: v(-724, 1748, 0), direction: v(724, -724, 0), time: 0 };
    let mut color = Color { x: 0, y: 0, z: 0 };
    let mut scattered = r_in;
    assert!(m.scatter(&r_in, &rec, &mut color, &mut scattered));
    // the grid-normalized incoming direction is (724, -725, 0); the exact
    // mirror image about the y normal flips its y component
    assert_eq!(scattered.direction, v(724, 725, 0));
}
