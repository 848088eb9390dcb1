//! Integer and structural core of a 2D vector rasteriser.
pub mod color;
pub mod geometry;
pub mod image;
pub mod memory;
pub mod path;
pub mod renderer;
pub mod segment_path;
pub mod spall;
pub mod stroke;
pub mod tiling;
pub mod wide;
