//! Data types of the renderer and the algorithms on them.
pub mod aabb;
pub mod bvh;
pub mod closest;
pub mod compare;
pub mod hitable;
pub mod material;
pub mod pixel;
pub mod ray;
pub mod scalar;
pub mod sphere;
pub mod texture;
pub mod vec3;
pub mod viewport;
