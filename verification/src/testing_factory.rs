//! A factory for small hand-written worlds, used by the tests.

use vstd::prelude::*;

use crate::constants::MAP_HEIGHT;
use crate::constants::MAP_WIDTH;
use crate::map::odd_side;
use crate::map::Coord;
use crate::map::Grid;
use crate::state::AgentId;
use crate::state::AgentState;
use crate::state::AgentType;
use crate::state::GlobalState;

verus! {

/// Builds a world on the configured grid holding the given agents at the given
/// cells, with identifiers numbered from one in order and no conversions yet.
pub fn _create_test_state(agent_info: Vec<(AgentType, Coord)>) -> (r: GlobalState)
    requires
        agent_info@.len() < u32::MAX,
        forall|k: int|
            0 <= k < agent_info@.len() ==> 0 <= (#[trigger] agent_info@[k]).1.x < odd_side(
                MAP_WIDTH,
            ) && 0 <= agent_info@[k].1.y < odd_side(MAP_HEIGHT),
    ensures
        r.wf(),
        r.map.height == odd_side(MAP_HEIGHT),
        r.map.width == odd_side(MAP_WIDTH),
        r.agents@.len() == agent_info@.len(),
        forall|k: int|
            0 <= k < r.agents@.len() ==> #[trigger] r.agents@[k] == (
            AgentId((k + 1) as u32),
            AgentState { ty: agent_info@[k].0, location: agent_info@[k].1, conversions: 0 },
            ),
{
    let map = Grid::new(MAP_HEIGHT, MAP_WIDTH);
    let mut agents: Vec<(AgentId, AgentState)> = Vec::new();
    let n = agent_info.len();
    let mut k: usize = 0;
    let mut id: u32 = 1;
    while k < n
        invariant
            k <= n,
            n == agent_info@.len(),
            n < u32::MAX,
            id == k + 1,
            map.wf(),
            map.height == odd_side(MAP_HEIGHT),
            map.width == odd_side(MAP_WIDTH),
            forall|j: int|
                0 <= j < agent_info@.len() ==> 0 <= (#[trigger] agent_info@[j]).1.x < odd_side(
                    MAP_WIDTH,
                ) && 0 <= agent_info@[j].1.y < odd_side(MAP_HEIGHT),
            agents@.len() == k,
            forall|j: int|
                0 <= j < k ==> #[trigger] agents@[j] == (
                AgentId((j + 1) as u32),
                AgentState { ty: agent_info@[j].0, location: agent_info@[j].1, conversions: 0 },
                ),
        decreases n - k,
    {
        let (ty, location) = agent_info[k];
        agents.push((AgentId(id), AgentState { ty, location, conversions: 0 }));
        id += 1;
        k += 1;
    }
    GlobalState { map, agents }
}

} // verus!
