//! Graphics traits and types.

pub mod aabb;
pub mod ray;
pub mod material;
pub mod perlin;
pub mod texture;
pub mod bvh;
pub mod closest;
pub mod hit;

pub use aabb::{Aabb, Slab};
pub use hit::{Face, Hit, HitList, HitRecord};
pub use bvh::{Bvh, Node};
pub use material::{Dielectric, Lambertian, Material, Metallic, Scatter};
pub use perlin::Perlin;
pub use ray::Ray;
pub use texture::{Checkered, Noise, Solid, Texture};
