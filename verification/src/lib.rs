//! Solver for an alchemy synthesis puzzle: materials with 3x3 bit-packed
//! shapes are placed onto a small cauldron grid, bonus levels propagate to
//! neighbouring tiles, and an exhaustive search returns the Pareto-optimal
//! frontier over per-group goal thresholds.
use vstd::prelude::*;

pub mod catalog;
pub mod cauldron;
pub mod color;
pub mod errors;
pub mod goal_result;
pub mod neighbours;
pub mod progress;
pub mod score;
pub mod shape;
pub mod solver;
pub mod test_data;
pub mod types;

verus! {

/// The maximum amount of item groups/goals that can be in a game.
pub const MAX_GOALS: usize = 4;

/// The max amount of items in a single item group.
pub const MAX_ITEMS_IN_GROUP: usize = 5;

/// The maximum total number of items over all groups.
pub const MAX_ITEMS: usize = 20;

} // verus!
