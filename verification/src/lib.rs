//! A sparse, chunked voxel world: per-chunk voxel grids with interned material
//! palettes, a distance-based chunk streaming manager, a meshing engine that
//! turns voxel grids into triangle buffers with face culling and two normal
//! modes, and a brush-based edit engine that cascades remesh invalidation.
//!
//! All geometry is carried in integer units (whole voxels, or half-voxels for
//! centers of cells and faces); a renderer converts to floating point at the
//! boundary.

pub mod coords;
pub mod voxel;
pub mod chunk;
pub mod world;
pub mod stream;
pub mod normals;
pub mod mesh;
pub mod edit;
pub mod inventory;
