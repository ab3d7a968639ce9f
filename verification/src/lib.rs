//! Procedural 2D tile-grid level generation.
//!
//! A seeded random walk carves a walkable region into an all-out-of-bounds
//! grid, small pockets are cleaned up, the grid is cropped to its minimal
//! bounding box, the boundary between walkable and non-walkable area is
//! traced into closed polygons, and monster packs are placed on the result.

pub mod area;
pub mod autocrop;
pub mod cleanup;
pub mod contour;
pub mod errors;
pub mod floor_pattern;
pub mod layout;
pub mod mobs;
pub mod rng;
pub mod tiles;
