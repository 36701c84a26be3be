//! A first-person view of a grid of cells, cast column by column into a grid of character
//! cells: rays marched through the grid in fixed steps, distances corrected for the fisheye
//! bulge, walls shaded by distance with sub-cell edges, and a double buffer that lists only
//! the cells that changed. All arithmetic is fixed point.
use vstd::prelude::*;

pub mod camera;
pub mod compose;
pub mod framebuffer;
pub mod game;
pub mod geometry;
pub mod map;
pub mod raycast;
pub mod screen;

verus! {

} // verus!
