//! Helpers on numbers, index lists, meshes and interpolation.
pub mod blend;
pub mod bounds;
pub mod distance;
pub mod index;
pub mod interpolation;
pub mod interpolation_laws;
pub mod mean;
pub mod mesh;
pub mod normals;
pub mod shares;
pub mod sums;
pub mod surface_laws;
pub mod triangle;
pub mod triangle_laws;
