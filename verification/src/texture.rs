use vstd::prelude::*;

use crate::common::{div_fl, lemma_abs_mul_le, lemma_div_ge_of, lemma_div_le_of, saturate, SCALE};
use crate::vec3::{abs_le, Color, Vec3};

verus! {

/// A texture that is the same color everywhere.
#[derive(Clone, Copy, Debug, PartialEq, Eq, Structural)]
pub struct SolidColorTexture {
    pub color: Color,
}

/// Alternating colors on a three-dimensional checkerboard of the given
/// fixed-point frequency.
#[derive(Clone, Copy, Debug, PartialEq, Eq, Structural)]
pub struct CheckerTexture {
    pub color_a: Color,
    pub color_b: Color,
    pub scale: i64,
}

/// A texture sampled from a decoded image: tightly packed rows of
/// three-byte blue-green-red pixels.
#[derive(Clone, Debug)]
pub struct ImageTexture {
    pub bytes_per_pixel: usize,
    pub width: usize,
    pub height: usize,
    pub data: Vec<u8>,
    pub bytes_per_scanline: usize,
}

/// The closed set of texture variants.
#[derive(Clone, Debug)]
pub enum Texture {
    Solid(SolidColorTexture),
    Checker(CheckerTexture),
    Image(ImageTexture),
}

pub open spec fn image_wf(t: ImageTexture) -> bool {
    &&& t.bytes_per_pixel == 3
    &&& t.width <= 0x4000
    &&& t.height <= 0x4000
    &&& t.bytes_per_scanline == t.width * 3
    &&& t.data@.len() == t.width * t.height * 3
}

pub open spec fn texture_wf(t: Texture) -> bool {
    match t {
        Texture::Solid(s) => abs_le(s.color, SCALE as int) && 0 <= s.color.x && 0 <= s.color.y
            && 0 <= s.color.z,
        Texture::Checker(c) => {
            &&& abs_le(c.color_a, SCALE as int) && 0 <= c.color_a.x && 0 <= c.color_a.y
                && 0 <= c.color_a.z
            &&& abs_le(c.color_b, SCALE as int) && 0 <= c.color_b.x && 0 <= c.color_b.y
                && 0 <= c.color_b.z
            &&& 0 <= c.scale <= 0x10_0000_0000
        },
        Texture::Image(img) => image_wf(img),
    }
}

/// Every channel of a sampled color lies in `[0, 1]`.
pub open spec fn color_saturated(c: Color) -> bool {
    &&& 0 <= c.x <= SCALE
    &&& 0 <= c.y <= SCALE
    &&& 0 <= c.z <= SCALE
}

/// The exact pixel lookup of an image texture: clamp the coordinates,
/// scale to texel indices, and read the blue-green-red bytes at the
/// computed offset, scaled to fixed point.  A degenerate image yields
/// magenta.
pub open spec fn image_value_spec(img: ImageTexture, u: int, v: int) -> Color {
    if img.height == 0 || img.width == 0 {
        Color { x: 1024i64, y: 0i64, z: 1024i64 }
    } else {
        let su = crate::common::clamp_spec(u, 0, 1024);
        let sv = crate::common::clamp_spec(v, 0, 1024);
        let x0 = (su * img.width) / 1024;
        let y0 = (sv * img.height) / 1024;
        let x = if x0 >= img.width { img.width - 1 } else { x0 };
        let y = if y0 >= img.height { img.height - 1 } else { y0 };
        let pos = x * img.bytes_per_pixel + y * img.bytes_per_scanline;
        Color {
            x: ((img.data@[pos + 2] * 1024) / 255) as i64,
            y: ((img.data@[pos + 1] * 1024) / 255) as i64,
            z: ((img.data@[pos] * 1024) / 255) as i64,
        }
    }
}

/// What sampling a texture at `(u, v, w)` returns, for every variant.
pub open spec fn texture_value_spec(t: Texture, u: int, v: int, w: int) -> Color {
    match t {
        Texture::Solid(s) => s.color,
        Texture::Checker(ck) => if ((u * ck.scale) / 1048576 + (v * ck.scale) / 1048576
            + (w * ck.scale) / 1048576) % 2 == 0 {
            ck.color_a
        } else {
            ck.color_b
        },
        Texture::Image(img) => image_value_spec(img, u, v),
    }
}

impl ImageTexture {
    /// Wraps an already decoded image: `data` holds `width * height` pixels
    /// of three bytes each, row-major.
    pub fn new(data: Vec<u8>, width: usize, height: usize) -> (t: ImageTexture)
        requires
            width <= 0x4000,
            height <= 0x4000,
            data@.len() == width * height * 3,
        ensures
            image_wf(t),
            t.data == data,
            t.width == width,
            t.height == height,
    {
        proof {
            assert(width * 3 <= 0xC000) by (nonlinear_arith)
                requires
                    width <= 0x4000,
            ;
        }
        let bytes_per_scanline = width * 3;
        ImageTexture { bytes_per_pixel: 3, width, height, data, bytes_per_scanline }
    }
}

impl Texture {
    /// Samples the texture at fixed-point coordinates `(u, v, w)`.
    pub fn value(&self, u: i64, v: i64, w: i64) -> (c: Color)
        requires
            texture_wf(*self),
            -0x10_0000_0000 <= u <= 0x10_0000_0000,
            -0x10_0000_0000 <= v <= 0x10_0000_0000,
            -0x10_0000_0000 <= w <= 0x10_0000_0000,
        ensures
            color_saturated(c),
            c == texture_value_spec(*self, u as int, v as int, w as int),
    {
        match self {
            Texture::Solid(s) => s.color,
            Texture::Checker(ck) => {
                proof {
                    lemma_abs_mul_le(u as int, ck.scale as int, 0x10_0000_0000,
                        0x10_0000_0000);
                    lemma_abs_mul_le(v as int, ck.scale as int, 0x10_0000_0000,
                        0x10_0000_0000);
                    lemma_abs_mul_le(w as int, ck.scale as int, 0x10_0000_0000,
                        0x10_0000_0000);
                    lemma_div_le_of(u as int * ck.scale as int, 0x100_0000_0000_0000, 1048576);
                    lemma_div_ge_of(u as int * ck.scale as int, -0x100_0000_0000_0000, 1048576);
                    lemma_div_le_of(v as int * ck.scale as int, 0x100_0000_0000_0000, 1048576);
                    lemma_div_ge_of(v as int * ck.scale as int, -0x100_0000_0000_0000, 1048576);
                    lemma_div_le_of(w as int * ck.scale as int, 0x100_0000_0000_0000, 1048576);
                    lemma_div_ge_of(w as int * ck.scale as int, -0x100_0000_0000_0000, 1048576);
                }
                let x = div_fl((u as i128) * (ck.scale as i128), 1048576);
                let y = div_fl((v as i128) * (ck.scale as i128), 1048576);
                let z = div_fl((w as i128) * (ck.scale as i128), 1048576);
                let total = x + y + z;
                let is_even = total % 2 == 0;
                proof {
                    vstd::arithmetic::div_mod::lemma_fundamental_div_mod(total as int, 2);
                    if total >= 0 {
                        assert((total as int) % 2 == 0 <==> total % 2 == 0);
                    } else {
                        assert((total as int) % 2 == 0 <==> (-total) % (2int) == 0);
                    }
                }
                if is_even {
                    ck.color_a
                } else {
                    ck.color_b
                }
            },
            Texture::Image(img) => {
                if img.height == 0 || img.width == 0 {
                    return Color { x: SCALE, y: 0, z: SCALE };
                }
                let su = saturate(u);
                let sv = saturate(v);
                proof {
                    lemma_abs_mul_le(su as int, img.width as int, 1024, 0x4000);
                    lemma_abs_mul_le(sv as int, img.height as int, 1024, 0x4000);
                    lemma_div_ge_of(su as int * img.width as int, 0, 1024);
                    lemma_div_ge_of(sv as int * img.height as int, 0, 1024);
                    assert(su as int * img.width as int <= 1024 * img.width as int)
                        by (nonlinear_arith)
                        requires
                            0 <= su <= 1024,
                            0 <= img.width,
                    ;
                    assert(sv as int * img.height as int <= 1024 * img.height as int)
                        by (nonlinear_arith)
                        requires
                            0 <= sv <= 1024,
                            0 <= img.height,
                    ;
                    lemma_div_le_of(su as int * img.width as int, img.width as int, 1024);
                    lemma_div_le_of(sv as int * img.height as int, img.height as int, 1024);
                }
                let mut x = div_fl((su as i128) * (img.width as i128), 1024) as usize;
                let mut y = div_fl((sv as i128) * (img.height as i128), 1024) as usize;
                if x >= img.width {
                    x = img.width - 1;
                }
                if y >= img.height {
                    y = img.height - 1;
                }
                proof {
                    assert(x * img.bytes_per_pixel <= 0xC000
                        && y * img.bytes_per_scanline <= 0x3000_0000
                        && x * img.bytes_per_pixel + y * img.bytes_per_scanline + 3
                            <= img.width * img.height * 3) by (nonlinear_arith)
                        requires
                            0 <= x < img.width,
                            0 <= y < img.height,
                            img.width <= 0x4000,
                            img.height <= 0x4000,
                            img.bytes_per_pixel == 3,
                            img.bytes_per_scanline == img.width * 3,
                    ;
                }
                let pos = x * img.bytes_per_pixel + y * img.bytes_per_scanline;
                let b = img.data[pos] as i64;
                let g = img.data[pos + 1] as i64;
                let r = img.data[pos + 2] as i64;
                proof {
                    lemma_div_ge_of(r as int * 1024, 0, 255);
                    lemma_div_ge_of(g as int * 1024, 0, 255);
                    lemma_div_ge_of(b as int * 1024, 0, 255);
                    lemma_div_le_of(r as int * 1024, 1024, 255);
                    lemma_div_le_of(g as int * 1024, 1024, 255);
                    lemma_div_le_of(b as int * 1024, 1024, 255);
                }
                Color {
                    x: ((r * 1024) / 255),
                    y: ((g * 1024) / 255),
                    z: ((b * 1024) / 255),
                }
            },
        }
    }
}

impl CheckerTexture {
    pub fn new(a: Color, b: Color, scale: i64) -> (t: CheckerTexture)
        ensures
            t.color_a == a,
            t.color_b == b,
            t.scale == scale,
    {
        CheckerTexture { color_a: a, color_b: b, scale }
    }
}

} // verus!
