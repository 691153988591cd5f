//! A small path tracer over fixed-point arithmetic.

pub mod camera;
pub mod canvas;
pub mod colour;
pub mod contact;
pub mod hittable;
pub mod hittable_list;
pub mod interval;
pub mod material;
pub mod ray;
pub mod refraction;
pub mod scalar;
pub mod sphere;
pub mod utility;
pub mod vector;
