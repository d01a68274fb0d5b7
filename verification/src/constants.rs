//! Tunable constants of the battle royale.

use vstd::prelude::*;

verus! {

/// How many contestants enter the battle.
pub const CONTESTANTS: u32 = 15;

/// Requested grid height; the grid rounds even sides up to odd ones.
pub const MAP_HEIGHT: u32 = 25;

/// Requested grid width.
pub const MAP_WIDTH: u32 = 25;

/// How many ticks a planning task occupies in the execution queue.
pub const PLANNING_DURATION: u64 = 3;

/// Lower bound on search-tree visits before the executor trusts a plan.
pub const PLANNING_MINIMUM_VISITS: u32 = 5;

/// How many lookahead levels the planner simulates.
pub const PLANNING_DEPTH: u32 = 3;

/// Agents within this Manhattan distance are modeled as opponents.
pub const VISIBILITY_DISTANCE: i64 = 30;

/// Largest grid side the arithmetic of the utility function accommodates.
pub const MAX_GRID_SIDE: u32 = 99_999;

/// Conversion counters saturate at this magnitude, so that no utility
/// computation can overflow.
pub const CONVERSION_CAP: i64 = 1_000_000;

} // verus!
