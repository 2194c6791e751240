//! Trimming and seam blending for the region storage of a voxel world.

pub mod area;
pub mod blending;
pub mod coord;
pub mod deletion;
pub mod dimension;
pub mod player;
pub mod text;
