use vstd::prelude::*;

use crate::common::{
    clamp, div_fl, fxdiv, fxmul, lemma_abs_mul_le, lemma_div_ge_of, lemma_div_le_of, SCALE,
    TMAX, VMAX,
};
use crate::hittable::{hit_spec, wf, HitRecord, Hittable};
use crate::interval::{interval_wf, Interval};
use crate::material::{material_wf, Material, EMISSION_MAX};
use crate::ray::{ray_wf, Ray};
use crate::rng::rand_range;
use crate::vec3::{abs_le, cross, dot_spec, normalize, Color, Point3, Vec3};

verus! {

/// The camera: viewing parameters, and the derived viewport basis computed
/// once by `initialize`.  The two `tan_half` fields carry the tangents of
/// the half field-of-view and half defocus angles, supplied by the caller
/// since the grid has no trigonometry.
#[derive(Clone, Copy, Debug)]
pub struct Camera {
    pub origin: Point3,
    pub target: Point3,
    pub up: Point3,
    pub image_width: i32,
    pub image_height: i32,
    pub samples_per_pixel: i32,
    pub max_depth: i32,
    pub vfov_tan_half: i64,
    pub defocus_tan_half: i64,
    pub focus_dist: i64,
    pub delta_time: i64,
    pub background: Color,
    pub viewport_upper_left: Point3,
    pub pixel_delta_u: Vec3,
    pub pixel_delta_v: Vec3,
    pub pixel00_loc: Vec3,
    pub defocus_disk_u: Vec3,
    pub defocus_disk_v: Vec3,
}

/// What rendering relies on: image dimensions and sampling counts in range,
/// the derived viewport fields within the direction budget, and a bounded
/// background radiance.
pub open spec fn camera_wf(c: Camera) -> bool {
    &&& 1 <= c.image_width <= 8192
    &&& 1 <= c.image_height <= 8192
    &&& 1 <= c.samples_per_pixel <= 16384
    &&& 1 <= c.max_depth <= 64
    &&& 0 <= c.delta_time <= SCALE
    &&& abs_le(c.origin, 0x200_0000)
    &&& abs_le(c.pixel00_loc, 0x400_0000)
    &&& abs_le(c.pixel_delta_u, 0x200_0000)
    &&& abs_le(c.pixel_delta_v, 0x200_0000)
    &&& -0x400_0000 <= c.pixel_delta_u.x * c.image_width <= 0x400_0000
    &&& -0x400_0000 <= c.pixel_delta_u.y * c.image_width <= 0x400_0000
    &&& -0x400_0000 <= c.pixel_delta_u.z * c.image_width <= 0x400_0000
    &&& -0x400_0000 <= c.pixel_delta_v.x * c.image_height <= 0x400_0000
    &&& -0x400_0000 <= c.pixel_delta_v.y * c.image_height <= 0x400_0000
    &&& -0x400_0000 <= c.pixel_delta_v.z * c.image_height <= 0x400_0000
    &&& abs_le(c.defocus_disk_u, 0x8_0000)
    &&& abs_le(c.defocus_disk_v, 0x8_0000)
    &&& 0 <= c.background.x <= EMISSION_MAX
    &&& 0 <= c.background.y <= EMISSION_MAX
    &&& 0 <= c.background.z <= EMISSION_MAX
}

/// A material table in which every entry is well-formed.
pub open spec fn materials_wf(materials: Seq<Material>) -> bool {
    forall|i: int| 0 <= i < materials.len() ==> material_wf(#[trigger] materials[i])
}

/// The jitter vector produced by sub-pixel offsets `(px, py)` within half a
/// pixel step each way.
pub open spec fn jitter_eq(c: Camera, px: int, py: int, p: Vec3) -> bool {
    &&& -512 <= px <= 512
    &&& -512 <= py <= 512
    &&& p.x == (px * c.pixel_delta_u.x) / 1024 + (py * c.pixel_delta_v.x) / 1024
    &&& p.y == (px * c.pixel_delta_u.y) / 1024 + (py * c.pixel_delta_v.y) / 1024
    &&& p.z == (px * c.pixel_delta_u.z) / 1024 + (py * c.pixel_delta_v.z) / 1024
}

/// A point of the lens disk: the origin offset along the defocus basis by a
/// sample strictly inside the unit disk.
pub open spec fn lens_eq(c: Camera, rx: int, ry: int, p: Point3) -> bool {
    &&& -1024 <= rx <= 1024
    &&& -1024 <= ry <= 1024
    &&& rx * rx + ry * ry < 1048576
    &&& p.x == c.origin.x + (rx * c.defocus_disk_u.x) / 1024 + (ry * c.defocus_disk_v.x)
        / 1024
    &&& p.y == c.origin.y + (rx * c.defocus_disk_u.y) / 1024 + (ry * c.defocus_disk_v.y)
        / 1024
    &&& p.z == c.origin.z + (rx * c.defocus_disk_u.z) / 1024 + (ry * c.defocus_disk_v.z)
        / 1024
}

/// The ray through pixel `(x, y)`: its origin is the camera origin (or a
/// lens-disk point when the aperture is open), and its direction is the
/// pixel equation through that origin and some admissible jitter, clamped
/// into the coordinate budget.
pub open spec fn ray_parts_eq(c: Camera, x: int, y: int, j: Vec3, o: Point3, r: Ray) -> bool {
    &&& (exists|px: int, py: int| #[trigger] jitter_eq(c, px, py, j))
    &&& if c.defocus_tan_half <= 0 {
        o == c.origin
    } else {
        exists|rx: int, ry: int| #[trigger] lens_eq(c, rx, ry, o)
    }
    &&& r.origin == o
    &&& r.direction.x == crate::common::clamp_spec(
        c.pixel00_loc.x + x * c.pixel_delta_u.x + y * c.pixel_delta_v.x + j.x - o.x,
        -(VMAX as int), VMAX as int)
    &&& r.direction.y == crate::common::clamp_spec(
        c.pixel00_loc.y + x * c.pixel_delta_u.y + y * c.pixel_delta_v.y + j.y - o.y,
        -(VMAX as int), VMAX as int)
    &&& r.direction.z == crate::common::clamp_spec(
        c.pixel00_loc.z + x * c.pixel_delta_u.z + y * c.pixel_delta_v.z + j.z - o.z,
        -(VMAX as int), VMAX as int)
}

/// The attenuations a material's scattering can report: a saturated texture
/// sample for a diffuse surface, the albedo itself for metal, white for a
/// dielectric; an emitter never scatters.
pub open spec fn attenuation_admissible(m: Material, att: Color) -> bool {
    match m {
        Material::Lambertian(_) => crate::texture::color_saturated(att),
        Material::Metal(mt) => att == mt.albedo,
        Material::Dielectric(_) => att == (Color { x: 1024i64, y: 1024i64, z: 1024i64 }),
        Material::Emiter(_) => false,
    }
}

/// One gathering step of the estimator: the returned radiance is the
/// surface's own emission plus an admissible attenuation applied to a
/// bounded recursive estimate.
pub open spec fn bounce_ok(m: Material, em: Color, att: Color, rest: Color, c: Color,
    depth: int) -> bool {
    &&& attenuation_admissible(m, att)
    &&& 0 <= rest.x <= radiance_bound(depth - 1)
    &&& 0 <= rest.y <= radiance_bound(depth - 1)
    &&& 0 <= rest.z <= radiance_bound(depth - 1)
    &&& c.x == em.x + (att.x * rest.x) / 1024
    &&& c.y == em.y + (att.y * rest.y) / 1024
    &&& c.z == em.z + (att.z * rest.z) / 1024
}

/// Ceiling on the radiance a ray of the given remaining depth can report:
/// each bounce adds at most one emission, and attenuation never amplifies.
pub open spec fn radiance_bound(depth: int) -> int {
    if depth <= 0 {
        0
    } else {
        depth * (EMISSION_MAX as int)
    }
}


/// The viewing direction input, origin minus target.
pub open spec fn camera_diff(c: Camera) -> Vec3 {
    Vec3 {
        x: (c.origin.x - c.target.x) as i64,
        y: (c.origin.y - c.target.y) as i64,
        z: (c.origin.z - c.target.z) as i64,
    }
}

/// The backward basis vector: the unit direction from target to origin.
pub open spec fn camera_w_spec(c: Camera) -> Vec3 {
    crate::vec3::normalize_spec(camera_diff(c))
}

/// The cross product of up with the backward vector, before normalization.
pub open spec fn camera_cu_spec(c: Camera) -> Vec3 {
    let w = camera_w_spec(c);
    Vec3 {
        x: (c.up.y * w.z - c.up.z * w.y) as i64,
        y: (c.up.z * w.x - c.up.x * w.z) as i64,
        z: (c.up.x * w.y - c.up.y * w.x) as i64,
    }
}

/// The right basis vector; the x axis when up is parallel to the view
/// direction.
pub open spec fn camera_u_spec(c: Camera) -> Vec3 {
    let cu = camera_cu_spec(c);
    if cu.x == 0 && cu.y == 0 && cu.z == 0 {
        Vec3 { x: 1024i64, y: 0i64, z: 0i64 }
    } else {
        crate::vec3::normalize_spec(cu)
    }
}

/// The up basis vector: the cross product of the two unit vectors, scaled
/// back to the grid.
pub open spec fn camera_v_spec(c: Camera) -> Vec3 {
    let w = camera_w_spec(c);
    let u = camera_u_spec(c);
    Vec3 {
        x: ((w.y * u.z - w.z * u.y) / 1024) as i64,
        y: ((w.z * u.x - w.x * u.z) / 1024) as i64,
        z: ((w.x * u.y - w.y * u.x) / 1024) as i64,
    }
}

/// The whole derivation `initialize` performs, field by field: viewport
/// extents from the field-of-view tangent and the focus distance, per-pixel
/// steps, the upper-left pixel, and the lens disk basis.
pub open spec fn initialize_spec(c: Camera) -> Camera {
    let w = camera_w_spec(c);
    let u = camera_u_spec(c);
    let v = camera_v_spec(c);
    let vh = 2 * ((c.vfov_tan_half * c.focus_dist) / 1024);
    let aspect = (c.image_width * 1024) / (c.image_height as int);
    let vw = (aspect * vh) / 1024;
    let vu = Vec3 {
        x: ((u.x * vw) / 1024) as i64,
        y: ((u.y * vw) / 1024) as i64,
        z: ((u.z * vw) / 1024) as i64,
    };
    let vv = Vec3 {
        x: ((v.x * vh) / 1024) as i64,
        y: ((v.y * vh) / 1024) as i64,
        z: ((v.z * vh) / 1024) as i64,
    };
    let pdu = Vec3 {
        x: ((vu.x as int) / (c.image_width as int)) as i64,
        y: ((vu.y as int) / (c.image_width as int)) as i64,
        z: ((vu.z as int) / (c.image_width as int)) as i64,
    };
    let pdv = Vec3 {
        x: ((vv.x as int) / (c.image_height as int)) as i64,
        y: ((vv.y as int) / (c.image_height as int)) as i64,
        z: ((vv.z as int) / (c.image_height as int)) as i64,
    };
    let wfd = Vec3 {
        x: ((w.x * c.focus_dist) / 1024) as i64,
        y: ((w.y * c.focus_dist) / 1024) as i64,
        z: ((w.z * c.focus_dist) / 1024) as i64,
    };
    let vul = Vec3 {
        x: (c.origin.x - vu.x / 2 - vv.x / 2 - wfd.x) as i64,
        y: (c.origin.y - vu.y / 2 - vv.y / 2 - wfd.y) as i64,
        z: (c.origin.z - vu.z / 2 - vv.z / 2 - wfd.z) as i64,
    };
    let p00 = Vec3 {
        x: (vul.x + (pdu.x + pdv.x) / 2) as i64,
        y: (vul.y + (pdu.y + pdv.y) / 2) as i64,
        z: (vul.z + (pdu.z + pdv.z) / 2) as i64,
    };
    let dr = (c.focus_dist * c.defocus_tan_half) / 1024;
    let ddu = Vec3 {
        x: ((u.x * dr) / 1024) as i64,
        y: ((u.y * dr) / 1024) as i64,
        z: ((u.z * dr) / 1024) as i64,
    };
    let ddv = Vec3 {
        x: ((v.x * dr) / 1024) as i64,
        y: ((v.y * dr) / 1024) as i64,
        z: ((v.z * dr) / 1024) as i64,
    };
    Camera {
        viewport_upper_left: vul,
        pixel_delta_u: pdu,
        pixel_delta_v: pdv,
        pixel00_loc: p00,
        defocus_disk_u: ddu,
        defocus_disk_v: ddv,
        ..c
    }
}

impl Camera {
    /// A camera with the default viewing parameters; call `initialize` after
    /// adjusting fields and before rendering.
    pub fn new() -> (c: Camera)
        ensures
            camera_wf(c),
    {
        Camera {
            origin: Vec3::one(),
            target: Vec3::zero(),
            up: Vec3::up(),
            image_width: 1920,
            image_height: 1080,
            samples_per_pixel: 128,
            max_depth: 50,
            vfov_tan_half: 181,
            defocus_tan_half: 1,
            focus_dist: 10240,
            delta_time: 0,
            background: Vec3::zero(),
            viewport_upper_left: Vec3::zero(),
            pixel_delta_u: Vec3::zero(),
            pixel_delta_v: Vec3::zero(),
            pixel00_loc: Vec3::zero(),
            defocus_disk_u: Vec3::zero(),
            defocus_disk_v: Vec3::zero(),
        }
    }

    /// Derives the orthonormal-ish viewing basis, the per-pixel step
    /// vectors, the upper-left pixel position and the lens disk basis from
    /// the viewing parameters.
    #[verifier::rlimit(100)]
    pub fn initialize(&mut self)
        requires
            abs_le(old(self).origin, 0x100_0000),
            abs_le(old(self).target, 0x100_0000),
            abs_le(old(self).up, 2048),
            dot_spec(
                Vec3 {
                    x: (old(self).origin.x - old(self).target.x) as i64,
                    y: (old(self).origin.y - old(self).target.y) as i64,
                    z: (old(self).origin.z - old(self).target.z) as i64,
                },
                Vec3 {
                    x: (old(self).origin.x - old(self).target.x) as i64,
                    y: (old(self).origin.y - old(self).target.y) as i64,
                    z: (old(self).origin.z - old(self).target.z) as i64,
                }) > 0,
            1 <= old(self).image_width <= 8192,
            1 <= old(self).image_height <= 8192,
            old(self).image_width <= 8 * old(self).image_height,
            1 <= old(self).samples_per_pixel <= 16384,
            1 <= old(self).max_depth <= 64,
            0 <= old(self).delta_time <= SCALE,
            1 <= old(self).vfov_tan_half <= 8192,
            0 <= old(self).defocus_tan_half <= 1024,
            1 <= old(self).focus_dist <= 0x4_0000,
            0 <= old(self).background.x <= EMISSION_MAX,
            0 <= old(self).background.y <= EMISSION_MAX,
            0 <= old(self).background.z <= EMISSION_MAX,
        ensures
            camera_wf(*final(self)),
            *final(self) == initialize_spec(*old(self)),
    {
        let diff = self.origin.sub(&self.target);
        let w_basis = normalize(diff);
        let cu = cross(&self.up, &w_basis);
        let u_basis = if cu.x == 0 && cu.y == 0 && cu.z == 0 {
            // up is parallel to the view direction; fall back to the x axis
            Vec3 { x: SCALE, y: 0, z: 0 }
        } else {
            proof {
                assert(dot_spec(cu, cu) > 0) by (nonlinear_arith)
                    requires
                        !(cu.x == 0 && cu.y == 0 && cu.z == 0),
                ;
                assert(-0x40_0000 <= cu.x <= 0x40_0000 && -0x40_0000 <= cu.y <= 0x40_0000
                    && -0x40_0000 <= cu.z <= 0x40_0000) by (nonlinear_arith)
                    requires
                        cu.x == self.up.y * w_basis.z - self.up.z * w_basis.y,
                        cu.y == self.up.z * w_basis.x - self.up.x * w_basis.z,
                        cu.z == self.up.x * w_basis.y - self.up.y * w_basis.x,
                        abs_le(self.up, 2048),
                        abs_le(w_basis, 1024),
                ;
            }
            normalize(cu)
        };
        let vv = cross(&w_basis, &u_basis);
        proof {
            assert(-0x20_0000 <= vv.x <= 0x20_0000 && -0x20_0000 <= vv.y <= 0x20_0000
                && -0x20_0000 <= vv.z <= 0x20_0000) by (nonlinear_arith)
                requires
                    vv.x == w_basis.y * u_basis.z - w_basis.z * u_basis.y,
                    vv.y == w_basis.z * u_basis.x - w_basis.x * u_basis.z,
                    vv.z == w_basis.x * u_basis.y - w_basis.y * u_basis.x,
                    abs_le(w_basis, 1024),
                    abs_le(u_basis, 1024),
            ;
            lemma_div_le_of(vv.x as int, 0x800, 1024);
            lemma_div_ge_of(vv.x as int, -0x800, 1024);
            lemma_div_le_of(vv.y as int, 0x800, 1024);
            lemma_div_ge_of(vv.y as int, -0x800, 1024);
            lemma_div_le_of(vv.z as int, 0x800, 1024);
            lemma_div_ge_of(vv.z as int, -0x800, 1024);
        }
        let v_basis = Vec3 {
            x: div_fl(vv.x as i128, 1024) as i64,
            y: div_fl(vv.y as i128, 1024) as i64,
            z: div_fl(vv.z as i128, 1024) as i64,
        };

        proof {
            lemma_abs_mul_le(self.vfov_tan_half as int, self.focus_dist as int, 8192, 0x4_0000);
        }
        let vhh = fxmul(self.vfov_tan_half, self.focus_dist);
        proof {
            assert(-0x20_0000 <= vhh <= 0x20_0000) by (nonlinear_arith)
                requires
                    SCALE == 1024,
                    SCALE * vhh <= self.vfov_tan_half * self.focus_dist,
                    self.vfov_tan_half * self.focus_dist < SCALE * (vhh + 1),
                    -0x8000_0000 <= self.vfov_tan_half * self.focus_dist <= 0x8000_0000,
            ;
        }
        let viewport_height = 2 * vhh;
        let aspect = fxdiv(self.image_width as i64, self.image_height as i64);
        proof {
            lemma_abs_mul_le(self.image_width as int, SCALE as int, 8192, 1024);
            assert((self.image_width as int) * SCALE <= 8192 * (self.image_height as int))
                by (nonlinear_arith)
                requires
                    self.image_width <= 8 * self.image_height,
                    SCALE == 1024,
            ;
            assert(0 <= aspect <= 8192) by (nonlinear_arith)
                requires
                    self.image_height >= 1,
                    (self.image_height as int) * aspect <= (self.image_width as int) * SCALE,
                    (self.image_width as int) * SCALE < (self.image_height as int) * (aspect
                        + 1),
                    (self.image_width as int) * SCALE <= 8192 * (self.image_height as int),
                    0 <= (self.image_width as int) * SCALE,
            ;
            lemma_abs_mul_le(aspect as int, viewport_height as int, 8192, 0x40_0000);
        }
        let viewport_width = fxmul(aspect, viewport_height);
        proof {
            assert(-0x200_0000 <= viewport_width <= 0x200_0000) by (nonlinear_arith)
                requires
                    SCALE == 1024,
                    SCALE * viewport_width <= aspect * viewport_height,
                    aspect * viewport_height < SCALE * (viewport_width + 1),
                    -0x8_0000_0000 <= aspect * viewport_height <= 0x8_0000_0000,
            ;
            lemma_abs_mul_le(u_basis.x as int, viewport_width as int, 1024, 0x200_0000);
            lemma_abs_mul_le(u_basis.y as int, viewport_width as int, 1024, 0x200_0000);
            lemma_abs_mul_le(u_basis.z as int, viewport_width as int, 1024, 0x200_0000);
            lemma_abs_mul_le(v_basis.x as int, viewport_height as int, 2048, 0x40_0000);
            lemma_abs_mul_le(v_basis.y as int, viewport_height as int, 2048, 0x40_0000);
            lemma_abs_mul_le(v_basis.z as int, viewport_height as int, 2048, 0x40_0000);
        }

        let viewport_u = u_basis.scale(viewport_width);
        let viewport_v = v_basis.scale(viewport_height);

        proof {
            assert(-0x200_0000 <= viewport_u.x <= 0x200_0000
                && -0x200_0000 <= viewport_u.y <= 0x200_0000
                && -0x200_0000 <= viewport_u.z <= 0x200_0000) by (nonlinear_arith)
                requires
                    SCALE == 1024,
                    viewport_u.x == (u_basis.x * viewport_width) / (SCALE as int),
                    viewport_u.y == (u_basis.y * viewport_width) / (SCALE as int),
                    viewport_u.z == (u_basis.z * viewport_width) / (SCALE as int),
                    -0x8_0000_0000 <= u_basis.x * viewport_width <= 0x8_0000_0000,
                    -0x8_0000_0000 <= u_basis.y * viewport_width <= 0x8_0000_0000,
                    -0x8_0000_0000 <= u_basis.z * viewport_width <= 0x8_0000_0000,
            ;
            assert(-0x200_0000 <= viewport_v.x <= 0x200_0000
                && -0x200_0000 <= viewport_v.y <= 0x200_0000
                && -0x200_0000 <= viewport_v.z <= 0x200_0000) by (nonlinear_arith)
                requires
                    SCALE == 1024,
                    viewport_v.x == (v_basis.x * viewport_height) / (SCALE as int),
                    viewport_v.y == (v_basis.y * viewport_height) / (SCALE as int),
                    viewport_v.z == (v_basis.z * viewport_height) / (SCALE as int),
                    -0x2_0000_0000 <= v_basis.x * viewport_height <= 0x2_0000_0000,
                    -0x2_0000_0000 <= v_basis.y * viewport_height <= 0x2_0000_0000,
                    -0x2_0000_0000 <= v_basis.z * viewport_height <= 0x2_0000_0000,
            ;
            lemma_div_le_of(viewport_u.x as int, 0x200_0000, self.image_width as int);
            lemma_div_ge_of(viewport_u.x as int, -0x200_0000, self.image_width as int);
            lemma_div_le_of(viewport_u.y as int, 0x200_0000, self.image_width as int);
            lemma_div_ge_of(viewport_u.y as int, -0x200_0000, self.image_width as int);
            lemma_div_le_of(viewport_u.z as int, 0x200_0000, self.image_width as int);
            lemma_div_ge_of(viewport_u.z as int, -0x200_0000, self.image_width as int);
            lemma_div_le_of(viewport_v.x as int, 0x200_0000, self.image_height as int);
            lemma_div_ge_of(viewport_v.x as int, -0x200_0000, self.image_height as int);
            lemma_div_le_of(viewport_v.y as int, 0x200_0000, self.image_height as int);
            lemma_div_ge_of(viewport_v.y as int, -0x200_0000, self.image_height as int);
            lemma_div_le_of(viewport_v.z as int, 0x200_0000, self.image_height as int);
            lemma_div_ge_of(viewport_v.z as int, -0x200_0000, self.image_height as int);
        }
        let pdu = Vec3 {
            x: div_fl(viewport_u.x as i128, self.image_width as i128) as i64,
            y: div_fl(viewport_u.y as i128, self.image_width as i128) as i64,
            z: div_fl(viewport_u.z as i128, self.image_width as i128) as i64,
        };
        let pdv = Vec3 {
            x: div_fl(viewport_v.x as i128, self.image_height as i128) as i64,
            y: div_fl(viewport_v.y as i128, self.image_height as i128) as i64,
            z: div_fl(viewport_v.z as i128, self.image_height as i128) as i64,
        };
        proof {
            lemma_mul_div_cancel_bound(viewport_u.x as int, self.image_width as int, 0x200_0000);
            lemma_mul_div_cancel_bound(viewport_u.y as int, self.image_width as int, 0x200_0000);
            lemma_mul_div_cancel_bound(viewport_u.z as int, self.image_width as int, 0x200_0000);
            lemma_mul_div_cancel_bound(viewport_v.x as int, self.image_height as int,
                0x200_0000);
            lemma_mul_div_cancel_bound(viewport_v.y as int, self.image_height as int,
                0x200_0000);
            lemma_mul_div_cancel_bound(viewport_v.z as int, self.image_height as int,
                0x200_0000);
        }

        proof {
            lemma_abs_mul_le(w_basis.x as int, self.focus_dist as int, 1024, 0x4_0000);
            lemma_abs_mul_le(w_basis.y as int, self.focus_dist as int, 1024, 0x4_0000);
            lemma_abs_mul_le(w_basis.z as int, self.focus_dist as int, 1024, 0x4_0000);
        }
        let wfd = w_basis.scale(self.focus_dist);
        proof {
            assert(-0x4_0000 <= wfd.x <= 0x4_0000 && -0x4_0000 <= wfd.y <= 0x4_0000
                && -0x4_0000 <= wfd.z <= 0x4_0000) by (nonlinear_arith)
                requires
                    SCALE == 1024,
                    wfd.x == (w_basis.x * self.focus_dist) / (SCALE as int),
                    wfd.y == (w_basis.y * self.focus_dist) / (SCALE as int),
                    wfd.z == (w_basis.z * self.focus_dist) / (SCALE as int),
                    -0x1000_0000 <= w_basis.x * self.focus_dist <= 0x1000_0000,
                    -0x1000_0000 <= w_basis.y * self.focus_dist <= 0x1000_0000,
                    -0x1000_0000 <= w_basis.z * self.focus_dist <= 0x1000_0000,
            ;
        }
        let half_u = Vec3 {
            x: div_fl(viewport_u.x as i128, 2) as i64,
            y: div_fl(viewport_u.y as i128, 2) as i64,
            z: div_fl(viewport_u.z as i128, 2) as i64,
        };
        let half_v = Vec3 {
            x: div_fl(viewport_v.x as i128, 2) as i64,
            y: div_fl(viewport_v.y as i128, 2) as i64,
            z: div_fl(viewport_v.z as i128, 2) as i64,
        };
        let vul = self.origin.sub(&half_u).sub(&half_v).sub(&wfd);
        let p00 = Vec3 {
            x: vul.x + div_fl((pdu.x + pdv.x) as i128, 2) as i64,
            y: vul.y + div_fl((pdu.y + pdv.y) as i128, 2) as i64,
            z: vul.z + div_fl((pdu.z + pdv.z) as i128, 2) as i64,
        };

        proof {
            lemma_abs_mul_le(self.focus_dist as int, self.defocus_tan_half as int, 0x4_0000,
                1024);
        }
        let defocus_radius = fxmul(self.focus_dist, self.defocus_tan_half);
        proof {
            assert(-0x4_0000 <= defocus_radius <= 0x4_0000) by (nonlinear_arith)
                requires
                    SCALE == 1024,
                    SCALE * defocus_radius <= self.focus_dist * self.defocus_tan_half,
                    self.focus_dist * self.defocus_tan_half < SCALE * (defocus_radius + 1),
                    -0x1000_0000 <= self.focus_dist * self.defocus_tan_half <= 0x1000_0000,
            ;
            lemma_abs_mul_le(u_basis.x as int, defocus_radius as int, 1024, 0x4_0000);
            lemma_abs_mul_le(u_basis.y as int, defocus_radius as int, 1024, 0x4_0000);
            lemma_abs_mul_le(u_basis.z as int, defocus_radius as int, 1024, 0x4_0000);
            lemma_abs_mul_le(v_basis.x as int, defocus_radius as int, 2048, 0x4_0000);
            lemma_abs_mul_le(v_basis.y as int, defocus_radius as int, 2048, 0x4_0000);
            lemma_abs_mul_le(v_basis.z as int, defocus_radius as int, 2048, 0x4_0000);
        }
        let ddu = u_basis.scale(defocus_radius);
        let ddv = v_basis.scale(defocus_radius);
        proof {
            assert(-0x8_0000 <= ddu.x <= 0x8_0000 && -0x8_0000 <= ddu.y <= 0x8_0000
                && -0x8_0000 <= ddu.z <= 0x8_0000 && -0x8_0000 <= ddv.x <= 0x8_0000
                && -0x8_0000 <= ddv.y <= 0x8_0000 && -0x8_0000 <= ddv.z <= 0x8_0000)
                by (nonlinear_arith)
                requires
                    SCALE == 1024,
                    ddu.x == (u_basis.x * defocus_radius) / (SCALE as int),
                    ddu.y == (u_basis.y * defocus_radius) / (SCALE as int),
                    ddu.z == (u_basis.z * defocus_radius) / (SCALE as int),
                    ddv.x == (v_basis.x * defocus_radius) / (SCALE as int),
                    ddv.y == (v_basis.y * defocus_radius) / (SCALE as int),
                    ddv.z == (v_basis.z * defocus_radius) / (SCALE as int),
                    -0x2000_0000 <= u_basis.x * defocus_radius <= 0x2000_0000,
                    -0x2000_0000 <= u_basis.y * defocus_radius <= 0x2000_0000,
                    -0x2000_0000 <= u_basis.z * defocus_radius <= 0x2000_0000,
                    -0x2000_0000 <= v_basis.x * defocus_radius <= 0x2000_0000,
                    -0x2000_0000 <= v_basis.y * defocus_radius <= 0x2000_0000,
                    -0x2000_0000 <= v_basis.z * defocus_radius <= 0x2000_0000,
            ;
        }

        self.viewport_upper_left = vul;
        self.pixel_delta_u = pdu;
        self.pixel_delta_v = pdv;
        self.pixel00_loc = p00;
        self.defocus_disk_u = ddu;
        self.defocus_disk_v = ddv;
    }

    /// A random point on the lens disk.
    pub fn defocus_disk_sample(&self) -> (p: Point3)
        requires
            camera_wf(*self),
        ensures
            abs_le(p, 0x300_0000),
            exists|rx: int, ry: int| #[trigger] lens_eq(*self, rx, ry, p),
    {
        let rnd = crate::vec3::random_in_unit_disk();
        proof {
            lemma_abs_mul_le(rnd.x as int, self.defocus_disk_u.x as int, 1024, 0x8_0000);
            lemma_abs_mul_le(rnd.x as int, self.defocus_disk_u.y as int, 1024, 0x8_0000);
            lemma_abs_mul_le(rnd.x as int, self.defocus_disk_u.z as int, 1024, 0x8_0000);
            lemma_abs_mul_le(rnd.y as int, self.defocus_disk_v.x as int, 1024, 0x8_0000);
            lemma_abs_mul_le(rnd.y as int, self.defocus_disk_v.y as int, 1024, 0x8_0000);
            lemma_abs_mul_le(rnd.y as int, self.defocus_disk_v.z as int, 1024, 0x8_0000);
            lemma_div_le_of(rnd.x as int * self.defocus_disk_u.x as int, 0x8_0000, 1024);
            lemma_div_ge_of(rnd.x as int * self.defocus_disk_u.x as int, -0x8_0000, 1024);
            lemma_div_le_of(rnd.x as int * self.defocus_disk_u.y as int, 0x8_0000, 1024);
            lemma_div_ge_of(rnd.x as int * self.defocus_disk_u.y as int, -0x8_0000, 1024);
            lemma_div_le_of(rnd.x as int * self.defocus_disk_u.z as int, 0x8_0000, 1024);
            lemma_div_ge_of(rnd.x as int * self.defocus_disk_u.z as int, -0x8_0000, 1024);
            lemma_div_le_of(rnd.y as int * self.defocus_disk_v.x as int, 0x8_0000, 1024);
            lemma_div_ge_of(rnd.y as int * self.defocus_disk_v.x as int, -0x8_0000, 1024);
            lemma_div_le_of(rnd.y as int * self.defocus_disk_v.y as int, 0x8_0000, 1024);
            lemma_div_ge_of(rnd.y as int * self.defocus_disk_v.y as int, -0x8_0000, 1024);
            lemma_div_le_of(rnd.y as int * self.defocus_disk_v.z as int, 0x8_0000, 1024);
            lemma_div_ge_of(rnd.y as int * self.defocus_disk_v.z as int, -0x8_0000, 1024);
        }
        let px = (self.origin.x as i128)
            + div_fl((rnd.x as i128) * (self.defocus_disk_u.x as i128), 1024)
            + div_fl((rnd.y as i128) * (self.defocus_disk_v.x as i128), 1024);
        let py = (self.origin.y as i128)
            + div_fl((rnd.x as i128) * (self.defocus_disk_u.y as i128), 1024)
            + div_fl((rnd.y as i128) * (self.defocus_disk_v.y as i128), 1024);
        let pz = (self.origin.z as i128)
            + div_fl((rnd.x as i128) * (self.defocus_disk_u.z as i128), 1024)
            + div_fl((rnd.y as i128) * (self.defocus_disk_v.z as i128), 1024);
        let p = Point3 { x: px as i64, y: py as i64, z: pz as i64 };
        proof {
            assert(lens_eq(*self, rnd.x as int, rnd.y as int, p));
        }
        p
    }

    /// The random sub-pixel jitter, a fraction of the pixel step vectors.
    pub fn pixel_sample_square(&self) -> (p: Vec3)
        requires
            camera_wf(*self),
        ensures
            abs_le(p, 0x200_0000),
            exists|px: int, py: int| #[trigger] jitter_eq(*self, px, py, p),
    {
        let px = -512 + rand_range(0, 1024);
        let py = -512 + rand_range(0, 1024);
        proof {
            lemma_abs_mul_le(px as int, self.pixel_delta_u.x as int, 512, 0x200_0000);
            lemma_abs_mul_le(px as int, self.pixel_delta_u.y as int, 512, 0x200_0000);
            lemma_abs_mul_le(px as int, self.pixel_delta_u.z as int, 512, 0x200_0000);
            lemma_abs_mul_le(py as int, self.pixel_delta_v.x as int, 512, 0x200_0000);
            lemma_abs_mul_le(py as int, self.pixel_delta_v.y as int, 512, 0x200_0000);
            lemma_abs_mul_le(py as int, self.pixel_delta_v.z as int, 512, 0x200_0000);
            lemma_div_le_of(px as int * self.pixel_delta_u.x as int, 0x100_0000, 1024);
            lemma_div_ge_of(px as int * self.pixel_delta_u.x as int, -0x100_0000, 1024);
            lemma_div_le_of(px as int * self.pixel_delta_u.y as int, 0x100_0000, 1024);
            lemma_div_ge_of(px as int * self.pixel_delta_u.y as int, -0x100_0000, 1024);
            lemma_div_le_of(px as int * self.pixel_delta_u.z as int, 0x100_0000, 1024);
            lemma_div_ge_of(px as int * self.pixel_delta_u.z as int, -0x100_0000, 1024);
            lemma_div_le_of(py as int * self.pixel_delta_v.x as int, 0x100_0000, 1024);
            lemma_div_ge_of(py as int * self.pixel_delta_v.x as int, -0x100_0000, 1024);
            lemma_div_le_of(py as int * self.pixel_delta_v.y as int, 0x100_0000, 1024);
            lemma_div_ge_of(py as int * self.pixel_delta_v.y as int, -0x100_0000, 1024);
            lemma_div_le_of(py as int * self.pixel_delta_v.z as int, 0x100_0000, 1024);
            lemma_div_ge_of(py as int * self.pixel_delta_v.z as int, -0x100_0000, 1024);
        }
        let jx = div_fl((px as i128) * (self.pixel_delta_u.x as i128), 1024)
            + div_fl((py as i128) * (self.pixel_delta_v.x as i128), 1024);
        let jy = div_fl((px as i128) * (self.pixel_delta_u.y as i128), 1024)
            + div_fl((py as i128) * (self.pixel_delta_v.y as i128), 1024);
        let jz = div_fl((px as i128) * (self.pixel_delta_u.z as i128), 1024)
            + div_fl((py as i128) * (self.pixel_delta_v.z as i128), 1024);
        let p = Vec3 { x: jx as i64, y: jy as i64, z: jz as i64 };
        proof {
            assert(jitter_eq(*self, px as int, py as int, p));
        }
        p
    }

    /// The ray through pixel `(x, y)`: jittered within the pixel footprint,
    /// optionally starting on the lens disk, at a random time within the
    /// shutter.  Its direction is clamped into the coordinate budget.
    pub fn get_ray(&self, x: i32, y: i32) -> (r: Ray)
        requires
            camera_wf(*self),
            0 <= x < self.image_width,
            0 <= y < self.image_height,
        ensures
            ray_wf(r),
            0 <= r.time <= self.delta_time,
            self.defocus_tan_half <= 0 ==> r.origin == self.origin,
            exists|j: Vec3, o: Point3| #[trigger] ray_parts_eq(*self, x as int, y as int, j,
                o, r),
    {
        proof {
            lemma_scaled_step_bound(self.pixel_delta_u.x as int, x as int,
                self.image_width as int);
            lemma_scaled_step_bound(self.pixel_delta_u.y as int, x as int,
                self.image_width as int);
            lemma_scaled_step_bound(self.pixel_delta_u.z as int, x as int,
                self.image_width as int);
            lemma_scaled_step_bound(self.pixel_delta_v.x as int, y as int,
                self.image_height as int);
            lemma_scaled_step_bound(self.pixel_delta_v.y as int, y as int,
                self.image_height as int);
            lemma_scaled_step_bound(self.pixel_delta_v.z as int, y as int,
                self.image_height as int);
        }
        let jitter = self.pixel_sample_square();
        let sx = (self.pixel00_loc.x as i128) + (x as i128) * (self.pixel_delta_u.x as i128)
            + (y as i128) * (self.pixel_delta_v.x as i128) + (jitter.x as i128);
        let sy = (self.pixel00_loc.y as i128) + (x as i128) * (self.pixel_delta_u.y as i128)
            + (y as i128) * (self.pixel_delta_v.y as i128) + (jitter.y as i128);
        let sz = (self.pixel00_loc.z as i128) + (x as i128) * (self.pixel_delta_u.z as i128)
            + (y as i128) * (self.pixel_delta_v.z as i128) + (jitter.z as i128);
        let ray_origin = if self.defocus_tan_half <= 0 {
            self.origin
        } else {
            self.defocus_disk_sample()
        };
        let dx = clamp((sx - ray_origin.x as i128) as i64, -VMAX, VMAX);
        let dy = clamp((sy - ray_origin.y as i128) as i64, -VMAX, VMAX);
        let dz = clamp((sz - ray_origin.z as i128) as i64, -VMAX, VMAX);
        let time = if self.delta_time > 0 {
            rand_range(0, self.delta_time)
        } else {
            0
        };
        let r = Ray {
            origin: ray_origin,
            direction: Vec3 { x: dx, y: dy, z: dz },
            time,
        };
        proof {
            assert(ray_parts_eq(*self, x as int, y as int, jitter, ray_origin, r));
        }
        r
    }

    /// The recursive radiance estimate for one ray: emission plus attenuated
    /// radiance of the scattered continuation, down to the depth budget.
    pub fn ray_color(&self, world: &Hittable, materials: &Vec<Material>, r: &Ray, depth: i32)
        -> (c: Color)
        requires
            camera_wf(*self),
            wf(*world),
            materials_wf(materials@),
            ray_wf(*r),
            depth <= 64,
        ensures
            0 <= c.x <= radiance_bound(depth as int),
            0 <= c.y <= radiance_bound(depth as int),
            0 <= c.z <= radiance_bound(depth as int),
            depth <= 0 ==> c == (Color { x: 0i64, y: 0i64, z: 0i64 }),
            (depth > 0 && !(r.direction.x == 0 && r.direction.y == 0 && r.direction.z == 0)
                && hit_spec(*world, *r, Interval { min: 1i64, max: TMAX }) is None)
                ==> c == self.background,
            (depth > 0 && !(r.direction.x == 0 && r.direction.y == 0 && r.direction.z == 0)
                && hit_spec(*world, *r, Interval { min: 1i64, max: TMAX }) is Some) ==> {
                let rec = hit_spec(*world, *r, Interval { min: 1i64, max: TMAX })->Some_0;
                if rec.mat >= materials@.len() {
                    c == (Color { x: 0i64, y: 0i64, z: 0i64 })
                } else {
                    let m = materials@[rec.mat as int];
                    let em = crate::material::emitted_spec(m, rec);
                    c == em || exists|att: Color, rest: Color| #[trigger] bounce_ok(m, em,
                        att, rest, c, depth as int)
                }
            },
        decreases depth,
    {
        if depth <= 0 {
            return Color::black();
        }
        if r.direction.x == 0 && r.direction.y == 0 && r.direction.z == 0 {
            // a ray going nowhere meets nothing but the background
            return self.background;
        }
        let mut rec = HitRecord::zeroed();
        if !world.hit(r, Interval { min: 1, max: TMAX }, &mut rec) {
            return self.background;
        }
        if rec.mat >= materials.len() {
            // a record pointing outside the material table absorbs
            return Color::black();
        }
        proof {
            assert(dot_spec(r.direction, r.direction) > 0) by (nonlinear_arith)
                requires
                    !(r.direction.x == 0 && r.direction.y == 0 && r.direction.z == 0),
            ;
        }
        let mat = &materials[rec.mat];
        let light_color = mat.emitted(&rec);
        let mut scattered = Ray {
            origin: Vec3 { x: 0, y: 0, z: 0 },
            direction: Vec3 { x: 0, y: 0, z: 0 },
            time: 0,
        };
        let mut attenuation = Color::black();
        if !mat.scatter(r, &rec, &mut attenuation, &mut scattered) {
            return light_color;
        }
        let rec_color = self.ray_color(world, materials, &scattered, depth - 1);
        proof {
            assert(attenuation_admissible(materials@[rec.mat as int], attenuation));
            let b = radiance_bound(depth as int - 1);
            assert(0 <= b <= 64 * EMISSION_MAX);
            lemma_attenuate_bound(attenuation.x as int, rec_color.x as int, b);
            lemma_attenuate_bound(attenuation.y as int, rec_color.y as int, b);
            lemma_attenuate_bound(attenuation.z as int, rec_color.z as int, b);
            assert(radiance_bound(depth as int) == radiance_bound(depth as int - 1)
                + EMISSION_MAX) by (nonlinear_arith)
                requires
                    depth >= 1,
            ;
        }
        let material_color = attenuation.mul(&rec_color);
        let out = light_color.add(&material_color);
        proof {
            assert(bounce_ok(materials@[rec.mat as int], light_color, attenuation, rec_color,
                out, depth as int));
        }
        out
    }
}

/// An attenuation in `[0, 1]` keeps a nonnegative bounded radiance
/// nonnegative and bounded.
proof fn lemma_attenuate_bound(a: int, x: int, b: int)
    requires
        0 <= a <= 1024,
        0 <= x <= b,
    ensures
        0 <= (a * x) / 1024 <= b,
{
    assert(0 <= a * x <= 1024 * b) by (nonlinear_arith)
        requires
            0 <= a <= 1024,
            0 <= x <= b,
    ;
    lemma_div_ge_of(a * x, 0, 1024);
    assert(1024 * b == b * 1024) by (nonlinear_arith);
    lemma_div_le_of(a * x, b, 1024);
}

/// The per-pixel step scaled by an in-range pixel index stays within the
/// viewport budget.
proof fn lemma_scaled_step_bound(p: int, i: int, n: int)
    requires
        0 <= i < n,
        -0x400_0000 <= p * n <= 0x400_0000,
        -0x200_0000 <= p <= 0x200_0000,
    ensures
        -0x400_0000 <= i * p <= 0x400_0000,
{
    assert(-0x400_0000 <= i * p <= 0x400_0000) by (nonlinear_arith)
        requires
            0 <= i < n,
            -0x400_0000 <= p * n <= 0x400_0000,
            -0x200_0000 <= p <= 0x200_0000,
    ;
}

/// A quotient whose numerator the divisor bounds stays bounded after
/// multiplying back by anything up to the divisor.
proof fn lemma_mul_div_cancel_bound(a: int, n: int, b: int)
    requires
        n >= 1,
        -b <= a <= b,
        0 <= b,
    ensures
        -(b + n) <= (a / n) * n <= b,
        -b <= a / n <= b,
{
    vstd::arithmetic::div_mod::lemma_fundamental_div_mod(a, n);
    assert(-(b + n) <= (a / n) * n <= b && -b <= a / n <= b) by (nonlinear_arith)
        requires
            n >= 1,
            -b <= a <= b,
            0 <= b,
            a == n * (a / n) + a % n,
            0 <= a % n < n,
    ;
}

/// One radiance sample within the depth budget's ceiling.
pub open spec fn sample_bounded(c: Color, depth: int) -> bool {
    &&& 0 <= c.x <= radiance_bound(depth)
    &&& 0 <= c.y <= radiance_bound(depth)
    &&& 0 <= c.z <= radiance_bound(depth)
}

pub open spec fn sum_x(s: Seq<Color>) -> int
    decreases s,
{
    if s.len() == 0 {
        0
    } else {
        sum_x(s.drop_last()) + s[s.len() - 1].x
    }
}

pub open spec fn sum_y(s: Seq<Color>) -> int
    decreases s,
{
    if s.len() == 0 {
        0
    } else {
        sum_y(s.drop_last()) + s[s.len() - 1].y
    }
}

pub open spec fn sum_z(s: Seq<Color>) -> int
    decreases s,
{
    if s.len() == 0 {
        0
    } else {
        sum_z(s.drop_last()) + s[s.len() - 1].z
    }
}

/// An accumulated pixel color: the componentwise sum of one bounded
/// radiance sample per configured sample count.
pub open spec fn sample_sum_ok(s: Seq<Color>, c: Color, spp: int, depth: int) -> bool {
    &&& s.len() == spp
    &&& forall|i: int| 0 <= i < s.len() ==> sample_bounded(#[trigger] s[i], depth)
    &&& c.x == sum_x(s)
    &&& c.y == sum_y(s)
    &&& c.z == sum_z(s)
}

/// Pixel `k` of a flat buffer holds the three encoded bytes of an
/// accumulated color that is a proper sample sum.
pub open spec fn pixel_cell_ok(buf: Seq<u8>, accs: Seq<Color>, k: int, spp: int,
    depth: int) -> bool {
    &&& (exists|s: Seq<Color>| #[trigger] sample_sum_ok(s, accs[k], spp, depth))
    &&& buf[3 * k] == channel_byte_spec(accs[k].z as int, spp) as u8
    &&& buf[3 * k + 1] == channel_byte_spec(accs[k].y as int, spp) as u8
    &&& buf[3 * k + 2] == channel_byte_spec(accs[k].x as int, spp) as u8
}

/// A rendered buffer: three bytes per pixel, each pixel encoding its own
/// accumulated sample sum.
pub open spec fn rows_bytes_ok(buf: Seq<u8>, accs: Seq<Color>, spp: int, depth: int) -> bool {
    &&& buf.len() == 3 * accs.len()
    &&& forall|k: int| 0 <= k < accs.len() ==> pixel_cell_ok(buf, accs, k, spp, depth)
}

/// The byte written for one averaged linear channel: average over the
/// samples, gamma-encode, clamp into [0, 1] and scale to eight bits.
pub open spec fn channel_byte_spec(c: int, spp: int) -> int {
    let avg = c / spp;
    let enc = crate::common::sqrt_floor(crate::common::clamp_spec(avg, 0, 1024) * 1024);
    (enc * 255) / 1024
}

/// Converts an accumulated pixel color into the three bytes stored in the
/// frame buffer, in blue-green-red order.
pub fn color_to_bytes(color: &Color, spp: i32) -> (r: (u8, u8, u8))
    requires
        spp >= 1,
        0 <= color.x <= 0x100_0000_0000,
        0 <= color.y <= 0x100_0000_0000,
        0 <= color.z <= 0x100_0000_0000,
    ensures
        r.0 == channel_byte_spec(color.z as int, spp as int),
        r.1 == channel_byte_spec(color.y as int, spp as int),
        r.2 == channel_byte_spec(color.x as int, spp as int),
{
    proof {
        lemma_div_ge_of(color.x as int, 0, spp as int);
        lemma_div_ge_of(color.y as int, 0, spp as int);
        lemma_div_ge_of(color.z as int, 0, spp as int);
        assert(color.x <= 0x100_0000_0000 * spp && color.y <= 0x100_0000_0000 * spp
            && color.z <= 0x100_0000_0000 * spp) by (nonlinear_arith)
            requires
                spp >= 1,
                0 <= color.x <= 0x100_0000_0000,
                0 <= color.y <= 0x100_0000_0000,
                0 <= color.z <= 0x100_0000_0000,
        ;
        lemma_div_le_of(color.x as int, 0x100_0000_0000, spp as int);
        lemma_div_le_of(color.y as int, 0x100_0000_0000, spp as int);
        lemma_div_le_of(color.z as int, 0x100_0000_0000, spp as int);
    }
    let scaled = Color {
        x: div_fl(color.x as i128, spp as i128) as i64,
        y: div_fl(color.y as i128, spp as i128) as i64,
        z: div_fl(color.z as i128, spp as i128) as i64,
    };
    let enc = scaled.to_srgb();
    let bb = (enc.z * 255) / 1024;
    let bg = (enc.y * 255) / 1024;
    let br = (enc.x * 255) / 1024;
    (bb as u8, bg as u8, br as u8)
}

/// Writes one pixel's bytes into the flat buffer at offset `pos`, touching
/// nothing else.
pub fn write_color(buffer: &mut Vec<u8>, color: &Color, spp: i32, pos: usize)
    requires
        pos + 3 <= old(buffer)@.len(),
        pos < 0x4000_0000,
        spp >= 1,
        0 <= color.x <= 0x100_0000_0000,
        0 <= color.y <= 0x100_0000_0000,
        0 <= color.z <= 0x100_0000_0000,
    ensures
        final(buffer)@.len() == old(buffer)@.len(),
        final(buffer)@[pos as int] == channel_byte_spec(color.z as int, spp as int) as u8,
        final(buffer)@[pos as int + 1] == channel_byte_spec(color.y as int, spp as int) as u8,
        final(buffer)@[pos as int + 2] == channel_byte_spec(color.x as int, spp as int) as u8,
        forall|j: int| 0 <= j < old(buffer)@.len() && !(pos <= j < pos + 3)
            ==> final(buffer)@[j] == old(buffer)@[j],
{
    let (bb, bg, br) = color_to_bytes(color, spp);
    buffer.set(pos, bb);
    buffer.set(pos + 1, bg);
    buffer.set(pos + 2, br);
}

impl Camera {
    /// Accumulates `samples_per_pixel` independent radiance estimates for
    /// pixel `(x, y)`.
    pub fn render_pixel(&self, x: i32, y: i32, world: &Hittable, materials: &Vec<Material>)
        -> (c: Color)
        requires
            camera_wf(*self),
            wf(*world),
            materials_wf(materials@),
            0 <= x < self.image_width,
            0 <= y < self.image_height,
        ensures
            0 <= c.x <= 0x100_0000_0000,
            0 <= c.y <= 0x100_0000_0000,
            0 <= c.z <= 0x100_0000_0000,
            exists|s: Seq<Color>| #[trigger] sample_sum_ok(s, c, self.samples_per_pixel as int,
                self.max_depth as int),
    {
        let mut acc = Color::black();
        let spp = self.samples_per_pixel;
        let ghost mut samples: Seq<Color> = Seq::empty();
        let mut s: i32 = 0;
        while s < spp
            invariant
                camera_wf(*self),
                wf(*world),
                materials_wf(materials@),
                0 <= x < self.image_width,
                0 <= y < self.image_height,
                0 <= s <= spp,
                spp == self.samples_per_pixel,
                0 <= acc.x <= s * 0x400_0000,
                0 <= acc.y <= s * 0x400_0000,
                0 <= acc.z <= s * 0x400_0000,
                samples.len() == s as int,
                forall|i: int| 0 <= i < samples.len() ==> sample_bounded(#[trigger] samples[i],
                    self.max_depth as int),
                acc.x == sum_x(samples),
                acc.y == sum_y(samples),
                acc.z == sum_z(samples),
            decreases spp - s,
        {
            let r = self.get_ray(x, y);
            let sample = self.ray_color(world, materials, &r, self.max_depth);
            proof {
                assert(radiance_bound(self.max_depth as int) <= 0x400_0000)
                    by (nonlinear_arith)
                    requires
                        1 <= self.max_depth <= 64,
                        radiance_bound(self.max_depth as int) == self.max_depth
                            * (EMISSION_MAX as int),
                        EMISSION_MAX == 0x10_0000,
                ;
                assert(s * 0x400_0000 + 0x400_0000 == (s + 1) * 0x400_0000)
                    by (nonlinear_arith);
                assert(spp * 0x400_0000 <= 0x100_0000_0000) by (nonlinear_arith)
                    requires
                        spp <= 16384,
                ;
                assert(s * 0x400_0000 <= spp * 0x400_0000) by (nonlinear_arith)
                    requires
                        s < spp,
                ;
            }
            acc = acc.add(&sample);
            proof {
                let prev = samples;
                samples = samples.push(sample);
                assert(samples.drop_last() =~= prev);
                assert(samples[samples.len() - 1] == sample);
            }
            s = s + 1;
        }
        proof {
            assert(spp * 0x400_0000 <= 0x100_0000_0000) by (nonlinear_arith)
                requires
                    spp <= 16384,
            ;
            assert(sample_sum_ok(samples, acc, self.samples_per_pixel as int,
                self.max_depth as int));
        }
        acc
    }

    /// Renders the scanline range `[y0, y1)` into a fresh buffer: row-major,
    /// three bytes per pixel, blue-green-red.
    pub fn render_rows(&self, world: &Hittable, materials: &Vec<Material>, y0: i32, y1: i32)
        -> (buf: Vec<u8>)
        requires
            camera_wf(*self),
            wf(*world),
            materials_wf(materials@),
            0 <= y0 <= y1 <= self.image_height,
        ensures
            buf@.len() == (y1 - y0) * self.image_width * 3,
            exists|accs: Seq<Color>| #[trigger] rows_bytes_ok(buf@, accs,
                self.samples_per_pixel as int, self.max_depth as int),
    {
        let mut buf: Vec<u8> = Vec::new();
        let ghost mut accs: Seq<Color> = Seq::empty();
        let w = self.image_width;
        let mut y: i32 = y0;
        while y < y1
            invariant
                camera_wf(*self),
                wf(*world),
                materials_wf(materials@),
                0 <= y0 <= y <= y1 <= self.image_height,
                w == self.image_width,
                buf@.len() == (y - y0) * w * 3,
                accs.len() * 3 == buf@.len(),
                rows_bytes_ok(buf@, accs, self.samples_per_pixel as int,
                    self.max_depth as int),
            decreases y1 - y,
        {
            let mut x: i32 = 0;
            while x < w
                invariant
                    camera_wf(*self),
                    wf(*world),
                    materials_wf(materials@),
                    0 <= y0 <= y < y1 <= self.image_height,
                    w == self.image_width,
                    0 <= x <= w,
                    buf@.len() == (y - y0) * w * 3 + x * 3,
                    accs.len() * 3 == buf@.len(),
                    rows_bytes_ok(buf@, accs, self.samples_per_pixel as int,
                        self.max_depth as int),
                decreases w - x,
            {
                let pixel = self.render_pixel(x, y, world, materials);
                let (bb, bg, br) = color_to_bytes(&pixel, self.samples_per_pixel);
                proof {
                    assert((y - y0) * w * 3 + x * 3 + 3 <= 8192 * 8192 * 3 + 8192 * 3)
                        by (nonlinear_arith)
                        requires
                            0 <= y - y0 <= 8192,
                            0 <= x < w <= 8192,
                    ;
                }
                let ghost buf_pre = buf@;
                let ghost accs_pre = accs;
                buf.push(bb);
                buf.push(bg);
                buf.push(br);
                proof {
                    accs = accs.push(pixel);
                    assert(buf@ =~= buf_pre + seq![bb, bg, br]);
                    assert forall|k: int| 0 <= k < accs.len() implies pixel_cell_ok(buf@,
                        accs, k, self.samples_per_pixel as int, self.max_depth as int) by {
                        if k < accs_pre.len() {
                            assert(pixel_cell_ok(buf_pre, accs_pre, k,
                                self.samples_per_pixel as int, self.max_depth as int));
                            assert(accs[k] == accs_pre[k]);
                            assert(buf@[3 * k] == buf_pre[3 * k]);
                            assert(buf@[3 * k + 1] == buf_pre[3 * k + 1]);
                            assert(buf@[3 * k + 2] == buf_pre[3 * k + 2]);
                        } else {
                            assert(accs[k] == pixel);
                            assert(buf@[3 * k] == bb);
                            assert(buf@[3 * k + 1] == bg);
                            assert(buf@[3 * k + 2] == br);
                        }
                    }
                }
                x = x + 1;
            }
            proof {
                assert((y - y0) * w * 3 + w * 3 == (y + 1 - y0) * w * 3) by (nonlinear_arith);
            }
            y = y + 1;
        }
        buf
    }

    /// Renders the whole image into a fresh frame buffer of
    /// `width * height * 3` bytes.
    pub fn render(&self, world: &Hittable, materials: &Vec<Material>) -> (buf: Vec<u8>)
        requires
            camera_wf(*self),
            wf(*world),
            materials_wf(materials@),
        ensures
            buf@.len() == self.image_height * self.image_width * 3,
            exists|accs: Seq<Color>| #[trigger] rows_bytes_ok(buf@, accs,
                self.samples_per_pixel as int, self.max_depth as int),
    {
        let buf = self.render_rows(world, materials, 0, self.image_height);
        proof {
            assert((self.image_height - 0) * self.image_width * 3
                == self.image_height * self.image_width * 3) by (nonlinear_arith);
        }
        buf
    }
}

/// The scanline range worker `i` of `workers` renders.
pub open spec fn segment_rows_spec(height: int, workers: int, i: int) -> (int, int) {
    let step = height / workers;
    (i * step, if i + 1 == workers { height } else { (i + 1) * step })
}

/// Computes worker `i`'s scanline range; the ranges of workers `0` to
/// `workers - 1` are adjacent, start at row zero and end at `height`, so
/// they partition the image into disjoint covering segments.
pub fn segment_rows(height: i32, workers: i32, i: i32) -> (r: (i32, i32))
    requires
        1 <= workers <= 8192,
        0 <= i < workers,
        0 <= height <= 8192,
    ensures
        (r.0 as int, r.1 as int) == segment_rows_spec(height as int, workers as int, i as int),
        0 <= r.0 <= r.1 <= height,
{
    let step = height / workers;
    proof {
        vstd::arithmetic::div_mod::lemma_fundamental_div_mod(height as int, workers as int);
        assert(0 <= step && step * workers <= height && i * step >= 0
            && (i + 1) * step <= workers * step && i * step <= (i + 1) * step
            && workers * step <= height && i * step <= workers * step
            && step <= 8192 && i * step <= 0x400_0000) by (nonlinear_arith)
            requires
                1 <= workers <= 8192,
                0 <= i < workers,
                0 <= height <= 8192,
                step == (height as int) / (workers as int),
                height == workers * ((height as int) / (workers as int)) + (height as int)
                    % (workers as int),
                0 <= (height as int) % (workers as int) < workers,
        ;
    }
    let start = i * step;
    let end = if i + 1 == workers {
        height
    } else {
        (i + 1) * step
    };
    (start, end)
}

/// Adjacent workers meet exactly: worker `i + 1` starts where worker `i`
/// ends, the first worker starts at row zero, and the last ends at the
/// image height — the segments partition the scanlines.
pub proof fn lemma_segments_partition(height: int, workers: int, i: int)
    requires
        1 <= workers,
        0 <= i < workers - 1,
        0 <= height,
    ensures
        segment_rows_spec(height, workers, i).1 == segment_rows_spec(height, workers, i + 1).0,
        segment_rows_spec(height, workers, 0).0 == 0,
        segment_rows_spec(height, workers, workers - 1).1 == height,
{
    assert(0 * (height / workers) == 0) by (nonlinear_arith);
}

} // verus!
