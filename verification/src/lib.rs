//! Tiled wave function collapse on a three-dimensional grid.
//!
//! A tile set is expanded by rotations and reflections, the faces of its tiles
//! are matched into an adjacency table, and a solver collapses every cell of a
//! cuboid to one tile so that adjacent cells always show compatible faces.

pub mod connector;
pub mod constraints;
pub mod coordinate;
pub mod face;
pub mod graphics;
pub mod model;
pub mod propagation;
pub mod random;
pub mod text;
pub mod tile;
pub mod tiles;
pub mod vox;
pub mod vox_file;
pub mod wave;

pub use face::Face;
