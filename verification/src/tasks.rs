//! The tasks an agent can perform: moving one cell (converting whoever it runs
//! into, by the rock-paper-scissors rules) and converting a specific agent.
//!
//! Each task's effect on a diff is defined once as a spec function over the
//! composed state, and the executable `execute` bodies are proved to produce
//! exactly that diff.

use vstd::prelude::*;

use crate::constants::CONVERSION_CAP;
use crate::domain::DisplayAction;
use crate::map::in_bounds;
use crate::map::spec_step;
use crate::map::step;
use crate::map::Direction;
use crate::state::cap_dec;
use crate::state::cap_inc;
use crate::state::composed_at;
use crate::state::composed_at_in;
use crate::state::composed_get;
use crate::state::composed_get_in;
use crate::state::lemma_composed_at_props;
use crate::state::lemma_composed_ok;
use crate::state::lemma_materialize_props;
use crate::state::lemma_upsert_props;
use crate::state::materialize;
use crate::state::spec_present;
use crate::state::spec_sane;
use crate::state::upsert;
use crate::state::AgentId;
use crate::state::AgentState;
use crate::state::Diff;
use crate::state::GlobalState;

verus! {

/// Move one cell in a direction; stepping onto prey converts it, stepping onto
/// a predator converts the mover.
#[derive(Clone, Copy, Debug, Hash, PartialEq, Eq, Structural)]
pub struct Move(pub Direction);

/// Convert one specific agent to the converter's type.
#[derive(Clone, Copy, Debug, Hash, PartialEq, Eq, Structural)]
pub struct Convert(pub AgentId);

/// One candidate action: the closed vocabulary the planner branches over.
#[derive(Clone, Copy, Debug, Hash, PartialEq, Eq, Structural)]
pub enum Action {
    Move(Move),
    Convert(Convert),
}

/// The cell a move by `agent` lands on.
pub open spec fn move_target(
    s: GlobalState,
    dv: Seq<(AgentId, AgentState)>,
    agent: AgentId,
    dir: Direction,
) -> crate::map::Coord {
    spec_step(dir, composed_get(s, dv, agent).unwrap().location)
}

/// The diff after the conversion phase of a move: if any agent occupies the
/// target cell, it is drawn into the diff; prey is converted to the mover's
/// type (its counter reset, the mover's raised), a predator converts the mover
/// instead, and any other occupant is left unchanged.
pub open spec fn move_diff_mid(
    s: GlobalState,
    dv: Seq<(AgentId, AgentState)>,
    agent: AgentId,
    dir: Direction,
) -> Seq<(AgentId, AgentState)> {
    let me = composed_get(s, dv, agent).unwrap();
    let target = move_target(s, dv, agent, dir);
    match composed_at(s, dv, target) {
        Some(p) => {
            let tid = p.0;
            let tst = p.1;
            if tst.ty == me.ty.spec_prey() {
                let da = upsert(
                    s,
                    dv,
                    tid,
                    AgentState { ty: me.ty, location: tst.location, conversions: -1i64 },
                );
                upsert(
                    s,
                    da,
                    agent,
                    AgentState {
                        ty: me.ty,
                        location: me.location,
                        conversions: cap_inc(me.conversions),
                    },
                )
            } else if tst.ty == me.ty.spec_predator() {
                let da = upsert(
                    s,
                    dv,
                    tid,
                    AgentState {
                        ty: tst.ty,
                        location: tst.location,
                        conversions: cap_inc(tst.conversions),
                    },
                );
                upsert(
                    s,
                    da,
                    agent,
                    AgentState {
                        ty: tst.ty,
                        location: me.location,
                        conversions: cap_dec(me.conversions),
                    },
                )
            } else {
                materialize(s, dv, tid)
            }
        },
        None => dv,
    }
}

/// The diff after a full move: the conversion phase, then the mover's location
/// set to the target cell.
pub open spec fn move_diff(
    s: GlobalState,
    dv: Seq<(AgentId, AgentState)>,
    agent: AgentId,
    dir: Direction,
) -> Seq<(AgentId, AgentState)> {
    let target = move_target(s, dv, agent, dir);
    let mid = move_diff_mid(s, dv, agent, dir);
    let cur = composed_get(s, mid, agent).unwrap();
    upsert(s, mid, agent, AgentState { location: target, ..cur })
}

/// The diff after `agent` converts `target`: the converter's counter rises,
/// the target takes the converter's type with its counter reset.
pub open spec fn convert_diff(
    s: GlobalState,
    dv: Seq<(AgentId, AgentState)>,
    agent: AgentId,
    target: AgentId,
) -> Seq<(AgentId, AgentState)> {
    let me = composed_get(s, dv, agent).unwrap();
    let d1 = upsert(s, dv, agent, AgentState { conversions: cap_inc(me.conversions), ..me });
    let tst = composed_get(s, d1, target).unwrap();
    upsert(s, d1, target, AgentState { ty: me.ty, location: tst.location, conversions: -1i64 })
}

/// The conversion phase keeps the pair well formed and removes no agent; its
/// composed records stay valid.
pub proof fn lemma_move_mid_props(
    s: GlobalState,
    dv: Seq<(AgentId, AgentState)>,
    agent: AgentId,
    dir: Direction,
)
    requires
        spec_sane(s, dv),
        spec_present(s, dv, agent),
    ensures
        spec_sane(s, move_diff_mid(s, dv, agent, dir)),
        forall|x: AgentId|
            spec_present(s, dv, x) ==> #[trigger] spec_present(s, move_diff_mid(s, dv, agent, dir), x),
{
    let me = composed_get(s, dv, agent).unwrap();
    let target = move_target(s, dv, agent, dir);
    lemma_composed_ok(s, dv, agent);
    match composed_at(s, dv, target) {
        Some(p) => {
            let tid = p.0;
            let tst = p.1;
            lemma_composed_at_props(s, dv, target);
            lemma_composed_ok(s, dv, tid);
            if tst.ty == me.ty.spec_prey() {
                let rec_t = AgentState { ty: me.ty, location: tst.location, conversions: -1i64 };
                let da = upsert(s, dv, tid, rec_t);
                lemma_upsert_props(s, dv, tid, rec_t);
                let rec_a = AgentState {
                    ty: me.ty,
                    location: me.location,
                    conversions: cap_inc(me.conversions),
                };
                lemma_upsert_props(s, da, agent, rec_a);
            } else if tst.ty == me.ty.spec_predator() {
                let rec_t = AgentState {
                    ty: tst.ty,
                    location: tst.location,
                    conversions: cap_inc(tst.conversions),
                };
                let da = upsert(s, dv, tid, rec_t);
                lemma_upsert_props(s, dv, tid, rec_t);
                let rec_a = AgentState {
                    ty: tst.ty,
                    location: me.location,
                    conversions: cap_dec(me.conversions),
                };
                lemma_upsert_props(s, da, agent, rec_a);
            } else {
                lemma_materialize_props(s, dv, tid);
            }
        },
        None => {},
    }
}

/// A move whose target cell lies on the grid keeps the pair well formed and
/// removes no agent.
pub proof fn lemma_move_diff_props(
    s: GlobalState,
    dv: Seq<(AgentId, AgentState)>,
    agent: AgentId,
    dir: Direction,
)
    requires
        spec_sane(s, dv),
        spec_present(s, dv, agent),
        in_bounds(s.map, move_target(s, dv, agent, dir)),
    ensures
        spec_sane(s, move_diff(s, dv, agent, dir)),
        forall|x: AgentId|
            spec_present(s, dv, x) ==> #[trigger] spec_present(s, move_diff(s, dv, agent, dir), x),
{
    let target = move_target(s, dv, agent, dir);
    let mid = move_diff_mid(s, dv, agent, dir);
    lemma_move_mid_props(s, dv, agent, dir);
    assert(spec_present(s, mid, agent));
    let cur = composed_get(s, mid, agent).unwrap();
    lemma_composed_ok(s, mid, agent);
    let rec = AgentState { location: target, ..cur };
    lemma_upsert_props(s, mid, agent, rec);
    assert forall|x: AgentId| spec_present(s, dv, x) implies #[trigger] spec_present(
        s,
        move_diff(s, dv, agent, dir),
        x,
    ) by {
        assert(spec_present(s, mid, x));
        assert(composed_get(s, upsert(s, mid, agent, rec), x) == (if x == agent {
            Some(rec)
        } else {
            composed_get(s, mid, x)
        }));
    }
}

/// A conversion of a present target keeps the pair well formed and removes no
/// agent.
pub proof fn lemma_convert_diff_props(
    s: GlobalState,
    dv: Seq<(AgentId, AgentState)>,
    agent: AgentId,
    target: AgentId,
)
    requires
        spec_sane(s, dv),
        spec_present(s, dv, agent),
        spec_present(s, dv, target),
    ensures
        spec_sane(s, convert_diff(s, dv, agent, target)),
        forall|x: AgentId|
            spec_present(s, dv, x) ==> #[trigger] spec_present(
                s,
                convert_diff(s, dv, agent, target),
                x,
            ),
{
    let me = composed_get(s, dv, agent).unwrap();
    lemma_composed_ok(s, dv, agent);
    let rec_a = AgentState { conversions: cap_inc(me.conversions), ..me };
    let d1 = upsert(s, dv, agent, rec_a);
    lemma_upsert_props(s, dv, agent, rec_a);
    let tst = composed_get(s, d1, target).unwrap();
    lemma_composed_ok(s, d1, target);
    lemma_upsert_props(s, d1, target, AgentState { ty: me.ty, location: tst.location, conversions: -1i64 });
}

impl Move {
    /// How many ticks the move occupies.
    pub fn duration(&self, _tick: u64) -> (r: u64)
        ensures
            r == 0,
    {
        0
    }

    /// Performs the move on the diff: converts the occupant of the target cell
    /// (or is converted by it), then steps onto the cell.  Chains no follow-up
    /// action.
    pub fn execute(&self, _tick: u64, s: &GlobalState, d: &mut Diff, agent: AgentId) -> (r: Option<
        Action,
    >)
        requires
            spec_sane(*s, old(d).agents@),
            spec_present(*s, old(d).agents@, agent),
        ensures
            final(d).agents@ == move_diff(*s, old(d).agents@, agent, self.0),
            r is None,
    {
        let ghost dv0 = old(d).agents@;
        let dir = self.0;
        let me = composed_get_in(s, &d.agents, agent).unwrap();
        proof {
            lemma_composed_ok(*s, dv0, agent);
        }
        let target = step(dir, me.location);

        match composed_at_in(s, &d.agents, target) {
            Some((tid, tst)) => {
                proof {
                    lemma_composed_at_props(*s, dv0, target);
                    lemma_composed_ok(*s, dv0, tid);
                }
                let ti = d.ensure_agent(s, tid);
                if tst.ty == me.ty.prey() {
                    // Convert the prey and credit the mover.
                    d.set_entry(
                        ti,
                        tid,
                        AgentState { ty: me.ty, location: tst.location, conversions: -1i64 },
                    );
                    let ghost rec_t = AgentState {
                        ty: me.ty,
                        location: tst.location,
                        conversions: -1i64,
                    };
                    proof {
                        assert(d.agents@ == upsert(*s, dv0, tid, rec_t));
                        lemma_upsert_props(*s, dv0, tid, rec_t);
                    }
                    let ai = d.ensure_agent(s, agent);
                    let nc = if me.conversions < CONVERSION_CAP {
                        me.conversions + 1
                    } else {
                        me.conversions
                    };
                    d.set_entry(
                        ai,
                        agent,
                        AgentState { ty: me.ty, location: me.location, conversions: nc },
                    );
                } else if tst.ty == me.ty.predator() {
                    // The predator converts the mover and takes the credit.
                    let nc_t = if tst.conversions < CONVERSION_CAP {
                        tst.conversions + 1
                    } else {
                        tst.conversions
                    };
                    d.set_entry(
                        ti,
                        tid,
                        AgentState { ty: tst.ty, location: tst.location, conversions: nc_t },
                    );
                    let ghost rec_t = AgentState {
                        ty: tst.ty,
                        location: tst.location,
                        conversions: cap_inc(tst.conversions),
                    };
                    proof {
                        assert(d.agents@ == upsert(*s, dv0, tid, rec_t));
                        lemma_upsert_props(*s, dv0, tid, rec_t);
                    }
                    let ai = d.ensure_agent(s, agent);
                    let nc_a = if me.conversions > -CONVERSION_CAP {
                        me.conversions - 1
                    } else {
                        me.conversions
                    };
                    d.set_entry(
                        ai,
                        agent,
                        AgentState { ty: tst.ty, location: me.location, conversions: nc_a },
                    );
                }
            },
            None => {},
        }
        proof {
            assert(d.agents@ == move_diff_mid(*s, dv0, agent, dir));
            lemma_move_mid_props(*s, dv0, agent, dir);
            assert(spec_present(*s, d.agents@, agent));
        }

        // Finally, carry out the move.
        let cur = composed_get_in(s, &d.agents, agent).unwrap();
        let ai = d.ensure_agent(s, agent);
        d.set_entry(
            ai,
            agent,
            AgentState { ty: cur.ty, location: target, conversions: cur.conversions },
        );
        None
    }

    /// The move is valid when the target cell lies on the grid.
    pub fn is_valid(&self, _tick: u64, s: &GlobalState, d: &Diff, agent: AgentId) -> (r: bool)
        requires
            spec_sane(*s, d.agents@),
            spec_present(*s, d.agents@, agent),
        ensures
            r == in_bounds(s.map, move_target(*s, d.agents@, agent, self.0)),
    {
        let me = composed_get_in(s, &d.agents, agent).unwrap();
        proof {
            lemma_composed_ok(*s, d.agents@, agent);
        }
        let target = step(self.0, me.location);
        !s.map.out_of_bounds(target)
    }

    /// The display tag of this move.
    pub fn display_action(&self) -> (r: DisplayAction)
        ensures
            r == DisplayAction::Move(self.0),
    {
        DisplayAction::Move(self.0)
    }
}

impl Convert {
    /// How many ticks the conversion occupies.
    pub fn duration(&self, _tick: u64) -> (r: u64)
        ensures
            r == 1,
    {
        1
    }

    /// Converts the target agent to this agent's type, crediting this agent
    /// and resetting the target's counter.  Chains no follow-up action.
    pub fn execute(&self, _tick: u64, s: &GlobalState, d: &mut Diff, agent: AgentId) -> (r: Option<
        Action,
    >)
        requires
            spec_sane(*s, old(d).agents@),
            spec_present(*s, old(d).agents@, agent),
            spec_present(*s, old(d).agents@, self.0),
        ensures
            final(d).agents@ == convert_diff(*s, old(d).agents@, agent, self.0),
            r is None,
    {
        let ghost dv0 = old(d).agents@;
        let me = composed_get_in(s, &d.agents, agent).unwrap();
        proof {
            lemma_composed_ok(*s, dv0, agent);
        }
        let ai = d.ensure_agent(s, agent);
        let nc = if me.conversions < CONVERSION_CAP {
            me.conversions + 1
        } else {
            me.conversions
        };
        d.set_entry(ai, agent, AgentState { ty: me.ty, location: me.location, conversions: nc });
        let ghost rec_a = AgentState {
            ty: me.ty,
            location: me.location,
            conversions: cap_inc(me.conversions),
        };
        proof {
            assert(d.agents@ == upsert(*s, dv0, agent, rec_a));
            lemma_upsert_props(*s, dv0, agent, rec_a);
        }

        let tst = composed_get_in(s, &d.agents, self.0).unwrap();
        let ti = d.ensure_agent(s, self.0);
        d.set_entry(
            ti,
            self.0,
            AgentState { ty: me.ty, location: tst.location, conversions: -1i64 },
        );
        None
    }

    /// Conversions are always valid.
    pub fn is_valid(&self, _tick: u64, _s: &GlobalState, _d: &Diff, _agent: AgentId) -> (r: bool)
        ensures
            r == true,
    {
        true
    }

    /// The display tag of this conversion.
    pub fn display_action(&self) -> (r: DisplayAction)
        ensures
            r == DisplayAction::Convert(self.0),
    {
        DisplayAction::Convert(self.0)
    }
}

} // verus!
