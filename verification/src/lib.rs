//! Tick-driven snake simulation: a fixed-timestep clock, a turn controller,
//! follower propagation along a parent chain, grid movement with collision
//! resolution, and one-segment-per-tick growth, all on a shared occupancy grid.

pub mod components;
pub mod controller;
pub mod extend;
pub mod laws;
pub mod state;
pub mod tick;
pub mod world;

use vstd::prelude::*;

verus! {

/// Number of grid columns in the default play field.
pub const GRID_X: usize = 12;

/// Number of grid rows in the default play field.
pub const GRID_Y: usize = 12;

} // verus!
