//! The rock-paper-scissors battle-royale domain: the game rules behind the
//! planner's [`crate::planner::domain::Domain`] interface.

use vstd::prelude::*;

use crate::behavior::spec_own_tasks;
use crate::behavior::Contestant;
use crate::constants::VISIBILITY_DISTANCE;
use crate::map::in_bounds;
use crate::map::spec_distance_points;
use crate::map::spec_manhattan;
use crate::map::Coord;
use crate::map::Direction;
use crate::planner::domain::Domain;
use crate::state::composed_get;
use crate::state::composed_get_in;
use crate::state::find_agent;
use crate::state::lemma_composed_ok;
use crate::state::set_agent;
use crate::state::spec_has_agent;
use crate::state::spec_present;
use crate::state::spec_sane;
use crate::state::AgentId;
use crate::state::AgentState;
use crate::state::Diff;
use crate::state::GlobalState;
use crate::tasks::convert_diff;
use crate::tasks::lemma_convert_diff_props;
use crate::tasks::lemma_move_diff_props;
use crate::tasks::move_diff;
use crate::tasks::move_target;
use crate::tasks::Action;

verus! {

/// A human-readable tag for an action, used to label tree edges.
#[derive(Clone, Copy, Debug, PartialEq, Eq, Structural)]
pub enum DisplayAction {
    Idle,
    Plan,
    Move(Direction),
    Convert(AgentId),
}

impl Default for DisplayAction {
    /// The tag of doing nothing.
    fn default() -> (r: DisplayAction)
        ensures
            r == DisplayAction::Idle,
    {
        DisplayAction::Idle
    }
}

/// The utility of `agent`: one conversion is worth the squared corner
/// distance, and being near the center earns up to three times that.
pub open spec fn spec_value(
    s: GlobalState,
    dv: Seq<(AgentId, AgentState)>,
    agent: AgentId,
) -> i64 {
    let a = composed_get(s, dv, agent).unwrap();
    (a.conversions * s.map.longest_sq + 3 * spec_distance_points(s.map, a.location)) as i64
}

/// The identifiers of the agents among `entries` within visibility range of
/// `loc`, except `me`, in entry order.
pub open spec fn visible_from(
    entries: Seq<(AgentId, AgentState)>,
    loc: Coord,
    me: AgentId,
) -> Seq<AgentId>
    decreases entries.len(),
{
    if entries.len() == 0 {
        Seq::empty()
    } else {
        let rest = visible_from(entries.skip(1), loc, me);
        if spec_manhattan(entries[0].1.location, loc) < VISIBILITY_DISTANCE && entries[0].0 != me {
            seq![entries[0].0] + rest
        } else {
            rest
        }
    }
}

/// The agents `agent` must model as opponents: all initial agents within
/// visibility range of its composed location, itself excluded, in ascending
/// identifier order (the snapshot is sorted).
pub open spec fn spec_visible(
    s: GlobalState,
    dv: Seq<(AgentId, AgentState)>,
    agent: AgentId,
) -> Seq<AgentId> {
    visible_from(s.agents@, composed_get(s, dv, agent).unwrap().location, agent)
}

/// Every visible identifier is an initial agent's and is not `me`.
proof fn lemma_visible_member(entries: Seq<(AgentId, AgentState)>, loc: Coord, me: AgentId, i: int)
    requires
        0 <= i < visible_from(entries, loc, me).len(),
    ensures
        visible_from(entries, loc, me)[i] != me,
        exists|j: int|
            0 <= j < entries.len() && (#[trigger] entries[j]).0 == visible_from(entries, loc, me)[i],
    decreases entries.len(),
{
    let v = visible_from(entries, loc, me);
    let rest = visible_from(entries.skip(1), loc, me);
    if spec_manhattan(entries[0].1.location, loc) < VISIBILITY_DISTANCE && entries[0].0 != me {
        if i == 0 {
            assert(entries[0].0 == v[0]);
        } else {
            lemma_visible_member(entries.skip(1), loc, me, i - 1);
            let j = choose|j: int|
                0 <= j < entries.skip(1).len() && (#[trigger] entries.skip(1)[j]).0 == rest[i - 1];
            assert(entries[j + 1].0 == v[i]);
        }
    } else {
        lemma_visible_member(entries.skip(1), loc, me, i);
        let j = choose|j: int|
            0 <= j < entries.skip(1).len() && (#[trigger] entries.skip(1)[j]).0 == rest[i];
        assert(entries[j + 1].0 == v[i]);
    }
}

/// An identifier carried by some entry can be found.
proof fn lemma_id_found(entries: Seq<(AgentId, AgentState)>, j: int)
    requires
        0 <= j < entries.len(),
    ensures
        find_agent(entries, entries[j].0) is Some,
    decreases entries.len(),
{
    if entries[0].0 != entries[j].0 {
        assert(entries.skip(1)[j - 1] == entries[j]);
        lemma_id_found(entries.skip(1), j - 1);
    }
}

/// The rock-paper-scissors battle royale as a planning domain.
pub struct RPSBattleRoyaleDomain;

impl RPSBattleRoyaleDomain {
    /// The behaviors contestants follow; there is exactly one.
    pub fn list_behaviors() -> (r: Vec<Contestant>)
        ensures
            r@.len() == 1,
    {
        let mut v: Vec<Contestant> = Vec::new();
        v.push(Contestant);
        v
    }

    /// The display tag of a planning task.
    pub fn display_action_task_planning() -> (r: DisplayAction)
        ensures
            r == DisplayAction::Plan,
    {
        DisplayAction::Plan
    }

    /// The local state an agent plans against: the whole global snapshot.
    pub fn derive_local_state(global_state: &GlobalState, _agent: AgentId) -> (r: GlobalState)
        ensures
            r.map == global_state.map,
            r.agents@ == global_state.agents@,
    {
        let mut agents: Vec<(AgentId, AgentState)> = Vec::new();
        let n = global_state.agents.len();
        let mut i: usize = 0;
        while i < n
            invariant
                i <= n,
                n == global_state.agents@.len(),
                agents@ == global_state.agents@.take(i as int),
            decreases n - i,
        {
            agents.push(global_state.agents[i]);
            proof {
                assert(agents@ =~= global_state.agents@.take(i as int + 1));
            }
            i += 1;
        }
        proof {
            assert(global_state.agents@.take(n as int) =~= global_state.agents@);
        }
        GlobalState { map: global_state.map, agents }
    }

    /// Applies a finished diff to the authoritative global state, override by
    /// override.  Every overridden agent must exist in the state.
    pub fn apply(global_state: &mut GlobalState, diff: &Diff)
        requires
            forall|k: int|
                0 <= k < diff.agents@.len() ==> spec_has_agent(
                    old(global_state).agents@,
                    (#[trigger] diff.agents@[k]).0,
                ),
        ensures
            final(global_state).map == old(global_state).map,
            final(global_state).agents@ == apply_overrides(
                old(global_state).agents@,
                diff.agents@,
            ),
    {
        let ghost base0 = global_state.agents@;
        let n = diff.agents.len();
        let mut k: usize = 0;
        proof {
            assert(diff.agents@.skip(0) =~= diff.agents@);
        }
        while k < n
            invariant
                k <= n,
                n == diff.agents@.len(),
                global_state.map == old(global_state).map,
                forall|j: int|
                    0 <= j < diff.agents@.len() ==> spec_has_agent(
                        global_state.agents@,
                        (#[trigger] diff.agents@[j]).0,
                    ),
                apply_overrides(global_state.agents@, diff.agents@.skip(k as int))
                    == apply_overrides(base0, diff.agents@),
            decreases n - k,
        {
            let ghost pre = global_state.agents@;
            let ghost rest = diff.agents@.skip(k as int);
            let (id, st) = diff.agents[k];
            let i = match crate::state::position_of_agent(&global_state.agents, id) {
                Some(i) => i,
                None => {
                    proof {
                        assert(false);
                    }
                    0
                },
            };
            global_state.agents[i] = (id, st);
            proof {
                crate::state::lemma_set_agent_at_index(pre, id, st, i as int);
                assert(rest[0] == diff.agents@[k as int]);
                assert(rest.skip(1) =~= diff.agents@.skip(k as int + 1));
                assert forall|j: int| 0 <= j < diff.agents@.len() implies spec_has_agent(
                    global_state.agents@,
                    (#[trigger] diff.agents@[j]).0,
                ) by {
                    crate::state::lemma_find_after_set(pre, id, st, diff.agents@[j].0);
                }
            }
            k += 1;
        }
        proof {
            assert(diff.agents@.skip(n as int).len() == 0);
        }
    }
}

/// `base` with every override of `dvs` written over it, in order.
pub open spec fn apply_overrides(
    base: Seq<(AgentId, AgentState)>,
    dvs: Seq<(AgentId, AgentState)>,
) -> Seq<(AgentId, AgentState)>
    decreases dvs.len(),
{
    if dvs.len() == 0 {
        base
    } else {
        apply_overrides(set_agent(base, dvs[0].0, dvs[0].1), dvs.skip(1))
    }
}

impl Domain for RPSBattleRoyaleDomain {
    type State = GlobalState;

    type Diff = Diff;

    type DiffV = Seq<(AgentId, AgentState)>;

    type Action = Action;

    type DisplayAction = DisplayAction;

    open spec fn diff_view(d: Diff) -> Seq<(AgentId, AgentState)> {
        d.agents@
    }

    open spec fn empty_diff_spec() -> Seq<(AgentId, AgentState)> {
        Seq::empty()
    }

    open spec fn sane(s: GlobalState, dv: Seq<(AgentId, AgentState)>) -> bool {
        spec_sane(s, dv)
    }

    open spec fn present(s: GlobalState, dv: Seq<(AgentId, AgentState)>, agent: AgentId) -> bool {
        spec_present(s, dv, agent)
    }

    open spec fn tasks_spec(
        tick: u64,
        s: GlobalState,
        dv: Seq<(AgentId, AgentState)>,
        agent: AgentId,
    ) -> Seq<Action> {
        spec_own_tasks(s, dv, agent)
    }

    open spec fn applicable(
        act: Action,
        tick: u64,
        s: GlobalState,
        dv: Seq<(AgentId, AgentState)>,
        agent: AgentId,
    ) -> bool {
        &&& spec_sane(s, dv)
        &&& spec_present(s, dv, agent)
        &&& match act {
            Action::Move(m) => in_bounds(s.map, move_target(s, dv, agent, m.0)),
            Action::Convert(c) => spec_present(s, dv, c.0),
        }
    }

    open spec fn diff_after(
        act: Action,
        tick: u64,
        s: GlobalState,
        dv: Seq<(AgentId, AgentState)>,
        agent: AgentId,
    ) -> Seq<(AgentId, AgentState)> {
        match act {
            Action::Move(m) => move_diff(s, dv, agent, m.0),
            Action::Convert(c) => convert_diff(s, dv, agent, c.0),
        }
    }

    open spec fn follow_up(
        act: Action,
        tick: u64,
        s: GlobalState,
        dv: Seq<(AgentId, AgentState)>,
        agent: AgentId,
    ) -> Option<Action> {
        None
    }

    open spec fn value_spec(
        tick: u64,
        s: GlobalState,
        dv: Seq<(AgentId, AgentState)>,
        agent: AgentId,
    ) -> i64 {
        spec_value(s, dv, agent)
    }

    open spec fn visible_spec(
        tick: u64,
        s: GlobalState,
        dv: Seq<(AgentId, AgentState)>,
        agent: AgentId,
    ) -> Seq<AgentId> {
        spec_visible(s, dv, agent)
    }

    open spec fn display_spec(act: Action) -> DisplayAction {
        match act {
            Action::Move(m) => DisplayAction::Move(m.0),
            Action::Convert(c) => DisplayAction::Convert(c.0),
        }
    }

    fn empty_diff() -> (r: Diff) {
        Diff::default()
    }

    fn clone_diff(d: &Diff) -> (r: Diff) {
        let mut agents: Vec<(AgentId, AgentState)> = Vec::new();
        let n = d.agents.len();
        let mut i: usize = 0;
        while i < n
            invariant
                i <= n,
                n == d.agents@.len(),
                agents@ == d.agents@.take(i as int),
            decreases n - i,
        {
            agents.push(d.agents[i]);
            proof {
                assert(agents@ =~= d.agents@.take(i as int + 1));
            }
            i += 1;
        }
        proof {
            assert(d.agents@.take(n as int) =~= d.agents@);
        }
        Diff { agents }
    }

    fn clone_action(act: &Action) -> (r: Action) {
        *act
    }

    fn get_tasks(tick: u64, s: &GlobalState, d: &Diff, agent: AgentId) -> (r: Vec<Action>) {
        let mut tasks: Vec<Action> = Vec::new();
        let behavior = Contestant;
        if behavior.is_valid(tick, s, d, agent) {
            behavior.add_own_tasks(tick, s, d, agent, &mut tasks);
        }
        proof {
            assert(tasks@ =~= spec_own_tasks(*s, d.agents@, agent));
        }
        tasks
    }

    fn execute(act: &Action, tick: u64, s: &GlobalState, d: &mut Diff, agent: AgentId) -> (r:
        Option<Action>) {
        match act {
            Action::Move(m) => m.execute(tick, s, d, agent),
            Action::Convert(c) => c.execute(tick, s, d, agent),
        }
    }

    fn get_current_value(tick: u64, s: &GlobalState, d: &Diff, agent: AgentId) -> (r: i64) {
        let a = composed_get_in(s, &d.agents, agent).unwrap();
        proof {
            lemma_composed_ok(*s, d.agents@, agent);
            let c = a.conversions as int;
            let l = s.map.longest_sq as int;
            let cx = s.map.center.x as int;
            let cy = s.map.center.y as int;
            assert(0 <= cx * cx <= 2_500_000_000 && 0 <= cy * cy <= 2_500_000_000)
                by (nonlinear_arith)
                requires
                    0 <= cx <= 50_000,
                    0 <= cy <= 50_000,
            ;
            assert(-5_000_000_000_000_000 <= c * l <= 5_000_000_000_000_000) by (nonlinear_arith)
                requires
                    -1_000_000 <= c <= 1_000_000,
                    0 <= l <= 5_000_000_000,
            ;
        }
        let conversions = a.conversions * s.map.longest_sq();
        let distance = 3 * s.map.distance_points(a.location);
        conversions + distance
    }

    fn update_visible_agents(tick: u64, s: &GlobalState, d: &Diff, agent: AgentId) -> (r: Vec<
        AgentId,
    >) {
        let me = composed_get_in(s, &d.agents, agent).unwrap();
        let agent_loc = me.location;
        let mut r: Vec<AgentId> = Vec::new();
        let sv = &s.agents;
        let n = sv.len();
        let mut i: usize = 0;
        proof {
            assert(sv@.skip(0) =~= sv@);
        }
        while i < n
            invariant
                i <= n,
                n == sv@.len(),
                sv == s.agents,
                r@ + visible_from(sv@.skip(i as int), agent_loc, agent) == visible_from(
                    sv@,
                    agent_loc,
                    agent,
                ),
            decreases n - i,
        {
            let ghost rest = sv@.skip(i as int);
            proof {
                assert(rest[0] == sv@[i as int]);
                assert(rest.skip(1) =~= sv@.skip(i as int + 1));
            }
            let ghost r_old = r@;
            if sv[i].1.location.manhattan_dist(agent_loc) < VISIBILITY_DISTANCE && !(sv[i].0.0
                == agent.0) {
                r.push(sv[i].0);
                proof {
                    assert(r@ =~= r_old + seq![sv@[i as int].0]);
                    assert(r@ + visible_from(sv@.skip(i as int + 1), agent_loc, agent) =~= r_old
                        + visible_from(rest, agent_loc, agent));
                }
            }
            i += 1;
        }
        proof {
            assert(sv@.skip(n as int).len() == 0);
            assert(r@ + visible_from(sv@.skip(n as int), agent_loc, agent) =~= r@);
        }
        r
    }

    fn display_action(act: &Action) -> (r: DisplayAction) {
        match act {
            Action::Move(m) => m.display_action(),
            Action::Convert(c) => c.display_action(),
        }
    }

    proof fn law_task_applicable(
        tick: u64,
        s: GlobalState,
        dv: Seq<(AgentId, AgentState)>,
        agent: AgentId,
        act: Action,
    ) {
        let ts = spec_own_tasks(s, dv, agent);
        let i = choose|i: int| 0 <= i < ts.len() && ts[i] == act;
        assert(act matches Action::Move(m) && in_bounds(s.map, move_target(s, dv, agent, m.0)));
    }

    proof fn law_follow_applicable(
        act: Action,
        tick: u64,
        s: GlobalState,
        dv: Seq<(AgentId, AgentState)>,
        agent: AgentId,
    ) {
    }

    proof fn law_execute_sane(
        act: Action,
        tick: u64,
        s: GlobalState,
        dv: Seq<(AgentId, AgentState)>,
        agent: AgentId,
    ) {
        match act {
            Action::Move(m) => lemma_move_diff_props(s, dv, agent, m.0),
            Action::Convert(c) => lemma_convert_diff_props(s, dv, agent, c.0),
        }
    }

    proof fn law_execute_present(
        act: Action,
        tick: u64,
        s: GlobalState,
        dv: Seq<(AgentId, AgentState)>,
        agent: AgentId,
        other: AgentId,
    ) {
        match act {
            Action::Move(m) => lemma_move_diff_props(s, dv, agent, m.0),
            Action::Convert(c) => lemma_convert_diff_props(s, dv, agent, c.0),
        }
    }

    proof fn law_visible_present(
        tick: u64,
        s: GlobalState,
        dv: Seq<(AgentId, AgentState)>,
        agent: AgentId,
        i: int,
    ) {
        let loc = composed_get(s, dv, agent).unwrap().location;
        lemma_visible_member(s.agents@, loc, agent, i);
        let id = visible_from(s.agents@, loc, agent)[i];
        let j = choose|j: int| 0 <= j < s.agents@.len() && (#[trigger] s.agents@[j]).0 == id;
        lemma_id_found(s.agents@, j);
    }
}

} // verus!
