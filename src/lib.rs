//! The integer core of a tile-based ray tracer: the pixel buffer, the cutting
//! of the canvas into tiles, the scheduling of tiles over workers and the
//! merging of their results, the render loops over a pixel-color closure, the
//! bounding volume hierarchy's structure and walk, and the random generators.

pub mod bvh;
pub mod image;
pub mod merge;
pub mod random;
pub mod render;
pub mod scheduler;
pub mod shading;
pub mod tile;
