//! Brick-saving meshers for height grids.
use vstd::prelude::*;

pub mod alike;
pub mod bitmask;
pub mod column;
pub mod coverage;
pub mod generate;
pub mod greedy;
pub mod heightset;
pub mod laws;
pub mod limits;
pub mod lines;
pub mod pairs;
pub mod planes;
pub mod quad;
pub mod quadgen;
pub mod reports;
pub mod terrain;
pub mod tiles;

pub use bitmask::BitMask;
pub use generate::{gen_greedy_heightmap, Progress, CANCELLED_MSG};
pub use greedy::{greedy_mesh_binary_plane, GreedyQuad};
pub use quad::QuadTree;
pub use quadgen::{gen_opt_heightmap, gen_quad_heightmap};

verus! {

/// Maximum world-unit footprint of a single merged brick on each XY axis. Bricks with a larger
/// footprint are dropped by the game without a message, so both meshers keep to it.
pub const MAX_BRICK_UNITS: u16 = 500;

} // verus!
