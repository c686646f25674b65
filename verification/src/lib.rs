use vstd::prelude::*;

pub mod common;
mod rng;
pub mod aabb;
pub mod bvh;
pub mod camera;
pub mod hittable;
pub mod hittable_list;
pub mod interval;
pub mod material;
pub mod quad;
pub mod ray;
pub mod sphere;
pub mod texture;
pub mod tga;
pub mod vec3;

verus! {

} // verus!
