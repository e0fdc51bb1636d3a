//! Field of view over a tiled cave: the grid model, the shadow-casting scan
//! that marks what an observer can see, and the cellular generator that
//! carves the caves.

pub mod fov;
pub mod game;
pub mod map;
pub mod random;
pub mod slope;
pub mod vector;
