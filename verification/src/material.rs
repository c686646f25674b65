use vstd::prelude::*;

use crate::common::{clamp, div_fl, fxdiv, fxmul, isqrt, lemma_div_ge_of, lemma_div_le_of, PMAX,
    SCALE};
use crate::hittable::HitRecord;
use crate::ray::{ray_wf, Ray};
use crate::rng::rand_range;
use crate::texture::{color_saturated, texture_wf, SolidColorTexture, Texture};
use crate::vec3::{
    abs_le, dot, dot_spec, normalize, normalize_spec, random_unit_vector, reflect, reflect_spec,
    refract, refract_spec, Color, Vec3,
};

verus! {

/// Bound on an emissive material's radiance channels.
pub const EMISSION_MAX: i64 = 0x10_0000;

/// Diffuse surface: scatters into the hemisphere around the normal and
/// attenuates by its albedo texture.
#[derive(Clone, Debug)]
pub struct Lambertian {
    pub albedo: Texture,
}

/// Mirror surface with a roughness perturbation.
#[derive(Clone, Copy, Debug, PartialEq, Eq, Structural)]
pub struct Metal {
    pub albedo: Color,
    pub roughness: i64,
}

/// Clear refractive surface; `ior` is the fixed-point index of refraction.
#[derive(Clone, Copy, Debug, PartialEq, Eq, Structural)]
pub struct Dielectric {
    pub ior: i64,
}

/// Light source: emits from its front face and never scatters.
#[derive(Clone, Copy, Debug, PartialEq, Eq, Structural)]
pub struct Emiter {
    pub emission: Color,
}

/// The closed set of material variants.
#[derive(Clone, Debug)]
pub enum Material {
    Lambertian(Lambertian),
    Metal(Metal),
    Dielectric(Dielectric),
    Emiter(Emiter),
}

pub open spec fn material_wf(m: Material) -> bool {
    match m {
        Material::Lambertian(l) => texture_wf(l.albedo),
        Material::Metal(mt) => color_saturated(mt.albedo) && 0 <= mt.roughness <= SCALE,
        Material::Dielectric(d) => 64 <= d.ior <= 16384,
        Material::Emiter(e) => 0 <= e.emission.x <= EMISSION_MAX && 0 <= e.emission.y
            <= EMISSION_MAX && 0 <= e.emission.z <= EMISSION_MAX,
    }
}

/// What the hit record must provide for scattering.
pub open spec fn scatter_rec_wf(rec: HitRecord) -> bool {
    &&& abs_le(rec.p, PMAX as int)
    &&& abs_le(rec.normal, 4096)
    &&& 0 <= rec.u <= SCALE
    &&& 0 <= rec.v <= SCALE
}

/// The refraction ratio a dielectric uses: the reciprocal of the index when
/// entering through the front face, the index itself when leaving.
pub open spec fn dielectric_ratio_spec(ior: int, front_face: bool) -> int {
    if front_face {
        1048576int / ior
    } else {
        ior
    }
}

/// What a surface emits by itself.
pub open spec fn emitted_spec(m: Material, rec: HitRecord) -> Color {
    match m {
        Material::Emiter(e) => if rec.front_face {
            e.emission
        } else {
            Color { x: 0i64, y: 0i64, z: 0i64 }
        },
        _ => Color { x: 0i64, y: 0i64, z: 0i64 },
    }
}

/// The diffuse scattering direction: the surface normal plus a unit-bounded
/// random sample, or the normal itself when the sum degenerates to zero.
pub open spec fn lambertian_dir_ok(smp: Vec3, n: Vec3, d: Vec3) -> bool {
    &&& abs_le(smp, 1024)
    &&& {
        let sx = smp.x + n.x;
        let sy = smp.y + n.y;
        let sz = smp.z + n.z;
        if sx == 0 && sy == 0 && sz == 0 {
            d == n
        } else {
            d.x == sx && d.y == sy && d.z == sz
        }
    }
}

/// The metallic scattering direction: the mirror reflection of the unit
/// incoming direction, perturbed by a roughness-scaled unit-bounded sample
/// (so a roughness of zero reflects exactly).
pub open spec fn metal_dir_ok(smp: Vec3, roughness: int, ud: Vec3, n: Vec3, d: Vec3) -> bool {
    &&& abs_le(smp, 1024)
    &&& d.x == reflect_spec(ud, n).x + (smp.x * roughness) / 1024
    &&& d.y == reflect_spec(ud, n).y + (smp.y * roughness) / 1024
    &&& d.z == reflect_spec(ud, n).z + (smp.z * roughness) / 1024
}

/// The Schlick reflectance approximation in fixed point.
pub open spec fn reflectence_spec(cos: int, ref_idx: int) -> int {
    let r0 = ((1024 - ref_idx) * 1024) / (1024 + ref_idx);
    let r0sq = (r0 * r0) / 1024;
    let p1 = 1024 - cos;
    let p2 = (p1 * p1) / 1024;
    let p4 = (p2 * p2) / 1024;
    let p5 = (p4 * p1) / 1024;
    r0sq + ((1024 - r0sq) * p5) / 1024
}

pub fn reflectence(cos: i64, ref_idx: i64) -> (r: i64)
    requires
        0 <= cos <= 1024,
        1 <= ref_idx <= 16384,
    ensures
        r == reflectence_spec(cos as int, ref_idx as int),
        0 <= r <= 1024,
{
    proof {
        assert((1024 - ref_idx) * 1024 <= (1024 + ref_idx) * 1024
            && (1024 - ref_idx) * 1024 >= (1024 + ref_idx) * (-1024)) by (nonlinear_arith)
            requires
                1 <= ref_idx <= 16384,
        ;
        lemma_div_le_of((1024 - ref_idx) * 1024, 1024, 1024 + ref_idx as int);
        lemma_div_ge_of((1024 - ref_idx) * 1024, -1024, 1024 + ref_idx as int);
    }
    let r0 = fxdiv(1024 - ref_idx, 1024 + ref_idx);
    proof {
        assert(0 <= r0 * r0 <= 1024 * 1024) by (nonlinear_arith)
            requires
                -1024 <= r0 <= 1024,
        ;
        lemma_div_ge_of(r0 as int * r0 as int, 0, 1024);
        lemma_div_le_of(r0 as int * r0 as int, 1024, 1024);
    }
    let r0sq = fxmul(r0, r0);
    let p1 = 1024 - cos;
    proof {
        assert(0 <= p1 * p1 <= 1024 * 1024) by (nonlinear_arith)
            requires
                0 <= p1 <= 1024,
        ;
        lemma_div_ge_of(p1 as int * p1 as int, 0, 1024);
        lemma_div_le_of(p1 as int * p1 as int, 1024, 1024);
    }
    let p2 = fxmul(p1, p1);
    proof {
        assert(0 <= p2 * p2 <= 1024 * 1024) by (nonlinear_arith)
            requires
                0 <= p2 <= 1024,
        ;
        lemma_div_ge_of(p2 as int * p2 as int, 0, 1024);
        lemma_div_le_of(p2 as int * p2 as int, 1024, 1024);
    }
    let p4 = fxmul(p2, p2);
    proof {
        assert(0 <= p4 * p1 <= 1024 * 1024) by (nonlinear_arith)
            requires
                0 <= p4 <= 1024,
                0 <= p1 <= 1024,
        ;
        lemma_div_ge_of(p4 as int * p1 as int, 0, 1024);
        lemma_div_le_of(p4 as int * p1 as int, 1024, 1024);
    }
    let p5 = fxmul(p4, p1);
    proof {
        assert(0 <= (1024 - r0sq) * p5 <= (1024 - r0sq) * 1024) by (nonlinear_arith)
            requires
                0 <= r0sq <= 1024,
                0 <= p5 <= 1024,
        ;
        lemma_div_ge_of((1024 - r0sq) as int * p5 as int, 0, 1024);
        lemma_div_le_of((1024 - r0sq) as int * p5 as int, 1024 - r0sq as int, 1024);
    }
    r0sq + fxmul(1024 - r0sq, p5)
}

impl Lambertian {
    pub fn new(albedo: Color) -> (m: Lambertian)
        requires
            color_saturated(albedo),
        ensures
            material_wf(Material::Lambertian(m)),
            m.albedo == Texture::Solid(SolidColorTexture { color: albedo }),
    {
        Lambertian { albedo: Texture::Solid(SolidColorTexture { color: albedo }) }
    }

    pub fn new_texture(albedo: Texture) -> (m: Lambertian)
        requires
            texture_wf(albedo),
        ensures
            material_wf(Material::Lambertian(m)),
            m.albedo == albedo,
    {
        Lambertian { albedo }
    }
}

impl Metal {
    pub fn new(albedo: Color, roughness: i64) -> (m: Metal)
        requires
            color_saturated(albedo),
        ensures
            material_wf(Material::Metal(m)),
            m.albedo == albedo,
            m.roughness == crate::common::clamp_spec(roughness as int, 0, SCALE as int),
    {
        Metal { albedo, roughness: crate::common::saturate(roughness) }
    }
}

impl Material {
    /// Whether and how an incoming ray continues after striking a surface
    /// described by `rec`; on success `color` gets the attenuation and
    /// `scattered` the outgoing ray.  Scattering directions draw on the
    /// thread's random sampler, so only their stated bounds are promised.
    pub fn scatter(&self, ray_in: &Ray, rec: &HitRecord, color: &mut Color,
        scattered: &mut Ray) -> (res: bool)
        requires
            material_wf(*self),
            ray_wf(*ray_in),
            scatter_rec_wf(*rec),
            dot_spec(ray_in.direction, ray_in.direction) > 0,
        ensures
            match *self {
                Material::Lambertian(l) => {
                    &&& res
                    &&& color_saturated(*final(color))
                    &&& *final(color) == crate::texture::texture_value_spec(l.albedo,
                        rec.u as int, rec.v as int, 0)
                    &&& final(scattered).origin == rec.p
                    &&& final(scattered).time == ray_in.time
                    &&& ray_wf(*final(scattered))
                    &&& exists|smp: Vec3| #[trigger] lambertian_dir_ok(smp, rec.normal,
                        final(scattered).direction)
                },
                Material::Metal(mt) => {
                    &&& res == (dot_spec(final(scattered).direction, rec.normal) > 0)
                    &&& *final(color) == mt.albedo
                    &&& final(scattered).origin == rec.p
                    &&& final(scattered).time == ray_in.time
                    &&& ray_wf(*final(scattered))
                    &&& exists|smp: Vec3| #[trigger] metal_dir_ok(smp, mt.roughness as int,
                        normalize_spec(ray_in.direction), rec.normal,
                        final(scattered).direction)
                },
                Material::Dielectric(d) => {
                    &&& res
                    &&& final(color).x == SCALE && final(color).y == SCALE
                        && final(color).z == SCALE
                    &&& final(scattered).origin == rec.p
                    &&& final(scattered).time == ray_in.time
                    &&& ray_wf(*final(scattered))
                    &&& {
                        let ud = normalize_spec(ray_in.direction);
                        let ratio = dielectric_ratio_spec(d.ior as int, rec.front_face);
                        &&& (final(scattered).direction == reflect_spec(ud, rec.normal)
                            || final(scattered).direction == refract_spec(ud, rec.normal,
                                ratio))
                        &&& (ratio == 1024 && abs_le(refract_spec(ud, rec.normal, 1024),
                            crate::common::VMAX as int))
                            ==> final(scattered).direction == refract_spec(ud, rec.normal,
                                1024)
                    }
                },
                Material::Emiter(_) => {
                    &&& !res
                    &&& *final(color) == *old(color)
                    &&& *final(scattered) == *old(scattered)
                },
            },
    {
        match self {
            Material::Lambertian(l) => {
                let rnd = random_unit_vector();
                let mut scatter_direction = rnd.add(&rec.normal);
                if scatter_direction.near_zero() {
                    scatter_direction = rec.normal;
                }
                *scattered = Ray::new(rec.p, scatter_direction, ray_in.time);
                *color = l.albedo.value(rec.u, rec.v, 0);
                proof {
                    assert(lambertian_dir_ok(rnd, rec.normal, scattered.direction));
                }
                true
            },
            Material::Metal(mt) => {
                let dir = normalize(ray_in.direction);
                let reflected = reflect(&dir, &rec.normal);
                let rnd = random_unit_vector();
                proof {
                    crate::common::lemma_abs_mul_le(rnd.x as int, mt.roughness as int, 1024,
                        1024);
                    crate::common::lemma_abs_mul_le(rnd.y as int, mt.roughness as int, 1024,
                        1024);
                    crate::common::lemma_abs_mul_le(rnd.z as int, mt.roughness as int, 1024,
                        1024);
                    lemma_div_le_of(rnd.x as int * mt.roughness as int, 1024, 1024);
                    lemma_div_ge_of(rnd.x as int * mt.roughness as int, -1024, 1024);
                    lemma_div_le_of(rnd.y as int * mt.roughness as int, 1024, 1024);
                    lemma_div_ge_of(rnd.y as int * mt.roughness as int, -1024, 1024);
                    lemma_div_le_of(rnd.z as int * mt.roughness as int, 1024, 1024);
                    lemma_div_ge_of(rnd.z as int * mt.roughness as int, -1024, 1024);
                }
                let fuzz = rnd.scale(mt.roughness);
                *scattered = Ray::new(rec.p, reflected.add(&fuzz), ray_in.time);
                *color = mt.albedo;
                proof {
                    assert(metal_dir_ok(rnd, mt.roughness as int,
                        normalize_spec(ray_in.direction), rec.normal, scattered.direction));
                }
                dot(&scattered.direction, &rec.normal) > 0
            },
            Material::Dielectric(d) => {
                *color = Color::white();
                let ratio = if rec.front_face {
                    proof {
                        lemma_div_ge_of(1048576, 64, d.ior as int);
                        lemma_div_le_of(1048576, 16384, d.ior as int);
                    }
                    div_fl(1048576, d.ior as i128) as i64
                } else {
                    d.ior
                };
                let dir = normalize(ray_in.direction);
                let neg_dir = dir.neg();
                let cd = dot(&neg_dir, &rec.normal);
                proof {
                    crate::vec3::lemma_dot_bound(neg_dir, rec.normal, 1024, 4096);
                    lemma_div_ge_of(cd as int, -12288, 1024);
                    lemma_div_le_of(cd as int, 12288, 1024);
                }
                let cos_theta = clamp(div_fl(cd as i128, 1024) as i64, 0, 1024);
                proof {
                    crate::common::lemma_abs_mul_le(cos_theta as int, cos_theta as int, 1024,
                        1024);
                }
                let sin2 = 1048576 - cos_theta * cos_theta;
                proof {
                    assert(0 <= sin2 <= 1048576) by (nonlinear_arith)
                        requires
                            0 <= cos_theta <= 1024,
                            sin2 == 1048576 - cos_theta * cos_theta,
                    ;
                }
                let sin_theta = isqrt(sin2 as i128) as i64;
                proof {
                    assert(sin_theta <= 1024) by (nonlinear_arith)
                        requires
                            0 <= sin_theta,
                            sin_theta * sin_theta <= 1048576,
                    ;
                }
                proof {
                    crate::common::lemma_abs_mul_le(ratio as int, sin_theta as int, 16384,
                        1024);
                }
                let cannot_refract = ratio * sin_theta > 1048576;
                let rnd_dbl = rand_range(0, 1024);
                // a ratio of one bends nothing, so the probabilistic Schlick
                // reflection is skipped there: the outgoing ray must stay
                // collinear at every incidence angle
                let should_reflect = cannot_refract
                    || (ratio != 1024 && reflectence(cos_theta, ratio) > rnd_dbl);
                let direction = if should_reflect {
                    reflect(&dir, &rec.normal)
                } else {
                    let rf = refract(&dir, &rec.normal, ratio);
                    if rf.x > crate::common::VMAX || rf.x < -crate::common::VMAX
                        || rf.y > crate::common::VMAX || rf.y < -crate::common::VMAX
                        || rf.z > crate::common::VMAX || rf.z < -crate::common::VMAX {
                        // out of the direction budget (possible only for a
                        // badly conditioned normal): fall back to reflection
                        reflect(&dir, &rec.normal)
                    } else {
                        rf
                    }
                };
                *scattered = Ray::new(rec.p, direction, ray_in.time);
                true
            },
            Material::Emiter(_) => false,
        }
    }

    /// The radiance the surface emits by itself: the emission color on a
    /// light's front face, black everywhere else.
    pub fn emitted(&self, rec: &HitRecord) -> (c: Color)
        ensures
            c == emitted_spec(*self, *rec),
    {
        match self {
            Material::Emiter(e) => {
                if rec.front_face {
                    e.emission
                } else {
                    Color::black()
                }
            },
            _ => Color::black(),
        }
    }
}

} // verus!
