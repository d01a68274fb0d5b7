//! The execution-side state of one battle: live type counts, planner visit
//! statistics, and the construction of the initial world.

use vstd::prelude::*;

use crate::constants::CONTESTANTS;
use crate::constants::MAP_HEIGHT;
use crate::constants::MAP_WIDTH;
use crate::constants::PLANNING_DURATION;
use crate::map::in_bounds;
use crate::map::odd_side;
use crate::map::Coord;
use crate::map::Grid;
use crate::state::agent_ok;
use crate::state::AgentId;
use crate::state::AgentState;
use crate::state::AgentType;
use crate::state::GlobalState;

verus! {

/// Relies on rand::random_range: a uniformly random index below `n`; nothing
/// more is assumed of the outcome.
#[verifier::external_body]
fn random_index(n: usize) -> (r: usize)
    requires
        n >= 1,
    ensures
        r < n,
{
    rand::random_range(0..n)
}

/// The type of the `i`-th spawned contestant: a third rocks, then a third
/// papers, the rest scissors.
pub open spec fn spawn_type(i: int) -> AgentType {
    if i < CONTESTANTS / 3 {
        AgentType::Rock
    } else if i < CONTESTANTS / 3 + CONTESTANTS / 3 {
        AgentType::Paper
    } else {
        AgentType::Scissors
    }
}

/// How many agents of `ty` the entries hold.
pub open spec fn count_type(entries: Seq<(AgentId, AgentState)>, ty: AgentType) -> int
    decreases entries.len(),
{
    if entries.len() == 0 {
        0
    } else {
        (if entries[0].1.ty == ty {
            1int
        } else {
            0int
        }) + count_type(entries.skip(1), ty)
    }
}

/// The execution-side state of one battle.
pub struct RPSBattleRoyaleExecutorState {
    pub rock_count: u32,
    pub paper_count: u32,
    pub scissors_count: u32,
    pub mcts_visits: Vec<u32>,
}

impl Default for RPSBattleRoyaleExecutorState {
    /// Starts from the spawn distribution, with no visits recorded.
    fn default() -> (r: RPSBattleRoyaleExecutorState)
        ensures
            r.rock_count == CONTESTANTS / 3,
            r.paper_count == CONTESTANTS / 3,
            r.scissors_count == CONTESTANTS - CONTESTANTS / 3 - CONTESTANTS / 3,
            r.mcts_visits@.len() == CONTESTANTS,
            forall|i: int| 0 <= i < r.mcts_visits@.len() ==> r.mcts_visits@[i] == 0u32,
    {
        let rock_count = CONTESTANTS / 3;
        let paper_count = CONTESTANTS / 3;
        let scissors_count = CONTESTANTS - rock_count - paper_count;
        let mut mcts_visits: Vec<u32> = Vec::new();
        let mut i: u32 = 0;
        while i < CONTESTANTS
            invariant
                i <= CONTESTANTS,
                mcts_visits@.len() == i,
                forall|k: int| 0 <= k < i ==> mcts_visits@[k] == 0u32,
            decreases CONTESTANTS - i,
        {
            mcts_visits.push(0);
            i += 1;
        }
        RPSBattleRoyaleExecutorState { rock_count, paper_count, scissors_count, mcts_visits }
    }
}

impl RPSBattleRoyaleExecutorState {
    /// Builds the initial world: the configured grid with `CONTESTANTS` agents
    /// on pairwise distinct cells drawn uniformly from the free cells, a third
    /// rocks, a third papers, the rest scissors, with identifiers numbered
    /// from zero in order.
    pub fn create_initial_state(&self) -> (r: GlobalState)
        ensures
            r.wf(),
            r.map.height == odd_side(MAP_HEIGHT),
            r.map.width == odd_side(MAP_WIDTH),
            r.agents@.len() == CONTESTANTS,
            forall|i: int|
                0 <= i < r.agents@.len() ==> (#[trigger] r.agents@[i]).0 == AgentId(i as u32),
            forall|i: int|
                0 <= i < r.agents@.len() ==> (#[trigger] r.agents@[i]).1.conversions == 0,
            forall|i: int|
                0 <= i < r.agents@.len() ==> (#[trigger] r.agents@[i]).1.ty == spawn_type(i),
            forall|i: int, j: int|
                0 <= i < j < r.agents@.len() ==> (#[trigger] r.agents@[i]).1.location != (
                #[trigger] r.agents@[j]).1.location,
    {
        let map = Grid::new(MAP_HEIGHT, MAP_WIDTH);
        let w = map.width();
        let h = map.height();

        // Every cell of the grid, row by row.
        let mut free: Vec<Coord> = Vec::new();
        let mut y: u32 = 0;
        while y < h
            invariant
                y <= h,
                h == odd_side(MAP_HEIGHT),
                w == odd_side(MAP_WIDTH),
                map.wf(),
                map.height == h,
                map.width == w,
                free@.len() == y * w,
                forall|k: int|
                    0 <= k < free@.len() ==> in_bounds(map, #[trigger] free@[k]) && free@[k].y < y,
                forall|k: int, l: int|
                    0 <= k < l < free@.len() ==> #[trigger] free@[k] != #[trigger] free@[l],
            decreases h - y,
        {
            let mut x: u32 = 0;
            while x < w
                invariant
                    x <= w,
                    y < h,
                    h == odd_side(MAP_HEIGHT),
                    w == odd_side(MAP_WIDTH),
                    map.wf(),
                    map.height == h,
                    map.width == w,
                    free@.len() == y * w + x,
                    forall|k: int|
                        0 <= k < free@.len() ==> in_bounds(map, #[trigger] free@[k]) && (
                        free@[k].y < y || (free@[k].y == y && free@[k].x < x)),
                    forall|k: int, l: int|
                        0 <= k < l < free@.len() ==> #[trigger] free@[k] != #[trigger] free@[l],
                decreases w - x,
            {
                free.push(Coord { x: x as i32, y: y as i32 });
                x += 1;
            }
            proof {
                assert((y as int + 1) * (w as int) == y as int * (w as int) + w as int)
                    by (nonlinear_arith);
            }
            y += 1;
        }

        // Place the contestants on distinct random free cells.
        let mut agents: Vec<(AgentId, AgentState)> = Vec::new();
        let mut i: u32 = 0;
        while i < CONTESTANTS
            invariant
                i <= CONTESTANTS,
                map.wf(),
                h == odd_side(MAP_HEIGHT),
                w == odd_side(MAP_WIDTH),
                map.height == h,
                map.width == w,
                free@.len() == 625 - i,
                agents@.len() == i,
                forall|k: int|
                    0 <= k < free@.len() ==> in_bounds(map, #[trigger] free@[k]),
                forall|k: int, l: int|
                    0 <= k < l < free@.len() ==> #[trigger] free@[k] != #[trigger] free@[l],
                forall|k: int, l: int|
                    0 <= k < free@.len() && 0 <= l < agents@.len() ==> #[trigger] free@[k] != (
                    #[trigger] agents@[l]).1.location,
                forall|k: int| 0 <= k < agents@.len() ==> (#[trigger] agents@[k]).0 == AgentId(k as u32),
                forall|k: int| 0 <= k < agents@.len() ==> (#[trigger] agents@[k]).1.conversions == 0,
                forall|k: int| 0 <= k < agents@.len() ==> (#[trigger] agents@[k]).1.ty == spawn_type(k),
                forall|k: int| 0 <= k < agents@.len() ==> agent_ok(map, (#[trigger] agents@[k]).1),
                forall|k: int, l: int|
                    0 <= k < l < agents@.len() ==> (#[trigger] agents@[k]).1.location != (
                    #[trigger] agents@[l]).1.location,
            decreases CONTESTANTS - i,
        {
            let ghost free_old = free@;
            let idx = random_index(free.len());
            let location = free.remove(idx);
            let ty = if i < CONTESTANTS / 3 {
                AgentType::Rock
            } else if i < CONTESTANTS / 3 + CONTESTANTS / 3 {
                AgentType::Paper
            } else {
                AgentType::Scissors
            };
            agents.push((AgentId(i), AgentState { ty, location, conversions: 0 }));
            proof {
                assert forall|k: int| 0 <= k < free@.len() implies in_bounds(
                    map,
                    #[trigger] free@[k],
                ) && free@[k] != location by {
                    if k < idx {
                        assert(free@[k] == free_old[k]);
                    } else {
                        assert(free@[k] == free_old[k + 1]);
                    }
                }
                assert forall|k: int, l: int| 0 <= k < l < free@.len() implies #[trigger] free@[k]
                    != #[trigger] free@[l] by {
                    let k0: int = if k < idx {
                        k
                    } else {
                        k + 1
                    };
                    let l0: int = if l < idx {
                        l
                    } else {
                        l + 1
                    };
                    assert(free@[k] == free_old[k0]);
                    assert(free@[l] == free_old[l0]);
                }
            }
            i += 1;
        }

        GlobalState { map, agents }
    }

    /// The initial task schedule: each agent's first idle task ends at a tick
    /// staggered by its identifier, spreading planning over the queue groups.
    pub fn init_task_schedule(&self, state: &GlobalState) -> (r: Vec<(AgentId, u64)>)
        ensures
            r@.len() == state.agents@.len(),
            forall|k: int|
                0 <= k < r@.len() ==> (#[trigger] r@[k]).0 == state.agents@[k].0 && r@[k].1
                    == state.agents@[k].0.0 as u64 % ((PLANNING_DURATION + 1) as u64),
    {
        let groups = PLANNING_DURATION + 1;
        let mut r: Vec<(AgentId, u64)> = Vec::new();
        let n = state.agents.len();
        let mut k: usize = 0;
        while k < n
            invariant
                k <= n,
                n == state.agents@.len(),
                groups == PLANNING_DURATION + 1,
                r@.len() == k,
                forall|j: int|
                    0 <= j < k ==> (#[trigger] r@[j]).0 == state.agents@[j].0 && r@[j].1
                        == state.agents@[j].0.0 as u64 % ((PLANNING_DURATION + 1) as u64),
            decreases n - k,
        {
            let id = state.agents[k].0;
            r.push((id, id.0 as u64 % groups));
            k += 1;
        }
        r
    }

    /// Whether the battle goes on: it ends once one type holds every agent.
    pub fn keep_execution(&self, _tick: u64, _state: &GlobalState) -> (r: bool)
        ensures
            r == !(self.rock_count == CONTESTANTS || self.paper_count == CONTESTANTS
                || self.scissors_count == CONTESTANTS),
    {
        !(self.rock_count == CONTESTANTS || self.paper_count == CONTESTANTS
            || self.scissors_count == CONTESTANTS)
    }

    /// Recounts the three types from the current state.
    pub fn update_counts(&mut self, state: &GlobalState)
        requires
            state.agents@.len() <= u32::MAX,
        ensures
            final(self).rock_count == count_type(state.agents@, AgentType::Rock),
            final(self).paper_count == count_type(state.agents@, AgentType::Paper),
            final(self).scissors_count == count_type(state.agents@, AgentType::Scissors),
            final(self).mcts_visits == old(self).mcts_visits,
    {
        let mut rock: u32 = 0;
        let mut paper: u32 = 0;
        let mut scissors: u32 = 0;
        let sv = &state.agents;
        let n = sv.len();
        let mut k: usize = 0;
        proof {
            assert(sv@.skip(0) =~= sv@);
        }
        while k < n
            invariant
                k <= n,
                n == sv@.len(),
                n <= u32::MAX,
                sv == state.agents,
                rock <= k && paper <= k && scissors <= k,
                rock + count_type(sv@.skip(k as int), AgentType::Rock) == count_type(
                    sv@,
                    AgentType::Rock,
                ),
                paper + count_type(sv@.skip(k as int), AgentType::Paper) == count_type(
                    sv@,
                    AgentType::Paper,
                ),
                scissors + count_type(sv@.skip(k as int), AgentType::Scissors) == count_type(
                    sv@,
                    AgentType::Scissors,
                ),
            decreases n - k,
        {
            proof {
                assert(sv@.skip(k as int)[0] == sv@[k as int]);
                assert(sv@.skip(k as int).skip(1) =~= sv@.skip(k as int + 1));
            }
            match sv[k].1.ty {
                AgentType::Rock => rock += 1,
                AgentType::Paper => paper += 1,
                AgentType::Scissors => scissors += 1,
            }
            k += 1;
        }
        proof {
            assert(sv@.skip(n as int).len() == 0);
        }
        self.rock_count = rock;
        self.paper_count = paper;
        self.scissors_count = scissors;
    }

    /// Adds `count` search-tree visits to the agent's tally, saturating;
    /// unknown agents are ignored.
    pub fn record_visits(&mut self, agent: AgentId, count: u32)
        ensures
            final(self).rock_count == old(self).rock_count,
            final(self).paper_count == old(self).paper_count,
            final(self).scissors_count == old(self).scissors_count,
            final(self).mcts_visits@ == (if (agent.0 as int) < old(self).mcts_visits@.len() {
                old(self).mcts_visits@.update(
                    agent.0 as int,
                    (if old(self).mcts_visits@[agent.0 as int] + count <= u32::MAX {
                        (old(self).mcts_visits@[agent.0 as int] + count) as u32
                    } else {
                        u32::MAX
                    }),
                )
            } else {
                old(self).mcts_visits@
            }),
    {
        let i = agent.0 as usize;
        if i < self.mcts_visits.len() {
            let cur = self.mcts_visits[i];
            let nv = if cur <= u32::MAX - count {
                cur + count
            } else {
                u32::MAX
            };
            self.mcts_visits[i] = nv;
        }
    }
}

} // verus!
