//! Fixed configuration of the simulation: the default grid extents and the
//! decay budget granted to a freshly spawned cell.

use vstd::prelude::*;

verus! {

/// How many cells wide the default board is.
pub const MAX_WIDTH: usize = 40;

/// How many cells tall the default board is.
pub const MAX_HEIGHT: usize = 40;

/// How many cells deep the default board is.
pub const MAX_DEPTH: usize = 40;

/// How many ticks a cell decays for before it is killed.
pub const DECAY_TICKS: u32 = 3;

/// Upper bound on each board dimension, so that coordinate arithmetic
/// (a coordinate plus or minus one, cast to `i32`) can never overflow.
pub const MAX_DIM: usize = 0x1000_0000;

} // verus!
