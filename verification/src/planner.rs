//! The lookahead planner: the domain interface it consumes, its node arena,
//! the mathematical model of a planning run, and the planner itself.

pub mod brain;
pub mod domain;
pub mod laws;
pub mod model;
pub mod node;
