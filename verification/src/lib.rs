//! A breadth-first lookahead planner for many-agent grid games, together with
//! a rock-paper-scissors battle-royale domain built on top of it.
//!
//! The planner ([`planner::brain::Brain`]) enumerates every candidate action of
//! one "root" agent, models all other visible agents greedily, and repeats this
//! level by level up to a configured depth.  It is generic over a
//! [`planner::domain::Domain`], the interface through which all game-specific
//! rules are consumed.

pub mod behavior;
pub mod constants;
pub mod domain;
pub mod executor_state;
pub mod map;
pub mod planner;
pub mod state;
pub mod tasks;
pub mod testing_factory;
