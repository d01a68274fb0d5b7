//! The contestant behavior: which tasks an agent may try at all.
//!
//! A contestant may move one cell in any of the four directions whose target
//! cell lies on the grid, enumerated in the fixed order left, up, right, down —
//! a deterministic order, so that planning is reproducible.

use vstd::prelude::*;

use crate::map::in_bounds;
use crate::map::Direction;
use crate::state::AgentId;
use crate::state::AgentState;
use crate::state::Diff;
use crate::state::GlobalState;
use crate::state::spec_present;
use crate::state::spec_sane;
use crate::tasks::move_target;
use crate::tasks::Action;
use crate::tasks::Move;

verus! {

/// The move in `dir`, if its target cell lies on the grid; else nothing.
pub open spec fn move_if_valid(
    s: GlobalState,
    dv: Seq<(AgentId, AgentState)>,
    agent: AgentId,
    dir: Direction,
) -> Seq<Action> {
    if in_bounds(s.map, move_target(s, dv, agent, dir)) {
        seq![Action::Move(Move(dir))]
    } else {
        Seq::empty()
    }
}

/// All tasks a contestant may try: the valid moves, in the canonical order
/// left, up, right, down.
pub open spec fn spec_own_tasks(
    s: GlobalState,
    dv: Seq<(AgentId, AgentState)>,
    agent: AgentId,
) -> Seq<Action> {
    move_if_valid(s, dv, agent, Direction::Left) + move_if_valid(s, dv, agent, Direction::Up)
        + move_if_valid(s, dv, agent, Direction::Right) + move_if_valid(
        s,
        dv,
        agent,
        Direction::Down,
    )
}

/// The behavior of every contestant.
pub struct Contestant;

impl Contestant {
    /// Contestants always act.
    pub fn is_valid(&self, _tick: u64, _s: &GlobalState, _d: &Diff, _agent: AgentId) -> (r: bool)
        ensures
            r == true,
    {
        true
    }

    /// Appends every valid move of `agent`, in the canonical order.
    pub fn add_own_tasks(
        &self,
        tick: u64,
        s: &GlobalState,
        d: &Diff,
        agent: AgentId,
        tasks: &mut Vec<Action>,
    )
        requires
            spec_sane(*s, d.agents@),
            spec_present(*s, d.agents@, agent),
        ensures
            final(tasks)@ == old(tasks)@ + spec_own_tasks(*s, d.agents@, agent),
    {
        let left = Move(Direction::Left);
        if left.is_valid(tick, s, d, agent) {
            tasks.push(Action::Move(left));
        }
        let up = Move(Direction::Up);
        if up.is_valid(tick, s, d, agent) {
            tasks.push(Action::Move(up));
        }
        let right = Move(Direction::Right);
        if right.is_valid(tick, s, d, agent) {
            tasks.push(Action::Move(right));
        }
        let down = Move(Direction::Down);
        if down.is_valid(tick, s, d, agent) {
            tasks.push(Action::Move(down));
        }
        proof {
            assert(tasks@ =~= old(tasks)@ + spec_own_tasks(*s, d.agents@, agent));
        }
    }
}

} // verus!
