//! The interface between the planner and the game rules.
//!
//! The planner consumes a domain through four operations: enumerating an
//! agent's candidate actions, applying an action to a diff, evaluating an
//! agent's utility, and listing the agents visible to an agent.  Every
//! operation is pure given its inputs, so a planning run is a mathematical
//! function of the initial state; the `*_spec` functions below are that
//! mathematical reading, and each executable operation is tied to its spec by
//! its contract.

use vstd::prelude::*;

use crate::state::AgentId;

verus! {

/// The game rules a planner run consumes.
///
/// `State` is a frozen snapshot of the world; `Diff` is an overlay of
/// per-agent overrides accumulated along one path of the search tree, with
/// `DiffV` its mathematical view.  `Action` is one candidate action and
/// `DisplayAction` a display tag for it.
///
/// `sane` says that a state/diff pair is well formed and `present` that an
/// agent can be looked up in it; the proof obligations at the bottom of the
/// trait let the planner carry both through an arbitrary run.
pub trait Domain: Sized {
    type State;

    type Diff;

    type DiffV;

    type Action;

    type DisplayAction;

    /// The mathematical view of a diff.
    spec fn diff_view(d: Self::Diff) -> Self::DiffV;

    /// The view of the empty diff: no overrides yet.
    spec fn empty_diff_spec() -> Self::DiffV;

    /// The state/diff pair is well formed.
    spec fn sane(s: Self::State, dv: Self::DiffV) -> bool;

    /// The agent can be looked up in the composed state.
    spec fn present(s: Self::State, dv: Self::DiffV, agent: AgentId) -> bool;

    /// The ordered candidate actions of `agent` under the composed state.
    spec fn tasks_spec(tick: u64, s: Self::State, dv: Self::DiffV, agent: AgentId) -> Seq<
        Self::Action,
    >;

    /// The action may be applied to the diff without violating any rule the
    /// domain's own operations depend on.
    spec fn applicable(
        act: Self::Action,
        tick: u64,
        s: Self::State,
        dv: Self::DiffV,
        agent: AgentId,
    ) -> bool;

    /// The diff after `agent` performs `act`.
    spec fn diff_after(
        act: Self::Action,
        tick: u64,
        s: Self::State,
        dv: Self::DiffV,
        agent: AgentId,
    ) -> Self::DiffV;

    /// The follow-up action chained to `act`, if any.
    spec fn follow_up(
        act: Self::Action,
        tick: u64,
        s: Self::State,
        dv: Self::DiffV,
        agent: AgentId,
    ) -> Option<Self::Action>;

    /// The utility of `agent` under the composed state.
    spec fn value_spec(tick: u64, s: Self::State, dv: Self::DiffV, agent: AgentId) -> i64;

    /// The agents `agent` must react to, in a deterministic order.
    spec fn visible_spec(tick: u64, s: Self::State, dv: Self::DiffV, agent: AgentId) -> Seq<
        AgentId,
    >;

    /// The display tag of an action.
    spec fn display_spec(act: Self::Action) -> Self::DisplayAction;

    /// A fresh, empty diff.
    fn empty_diff() -> (r: Self::Diff)
        ensures
            Self::diff_view(r) == Self::empty_diff_spec(),
    ;

    /// A copy of a diff with the same view.
    fn clone_diff(d: &Self::Diff) -> (r: Self::Diff)
        ensures
            Self::diff_view(r) == Self::diff_view(*d),
    ;

    /// A copy of an action.
    fn clone_action(act: &Self::Action) -> (r: Self::Action)
        ensures
            r == *act,
    ;

    /// All candidate actions of `agent`, in the canonical order.
    fn get_tasks(tick: u64, s: &Self::State, d: &Self::Diff, agent: AgentId) -> (r: Vec<
        Self::Action,
    >)
        requires
            Self::sane(*s, Self::diff_view(*d)),
            Self::present(*s, Self::diff_view(*d), agent),
        ensures
            r@ == Self::tasks_spec(tick, *s, Self::diff_view(*d), agent),
    ;

    /// Applies `act` for `agent`, mutating the diff, and returns the chained
    /// follow-up action, if any.
    fn execute(act: &Self::Action, tick: u64, s: &Self::State, d: &mut Self::Diff, agent: AgentId)
        -> (r: Option<Self::Action>)
        requires
            Self::applicable(*act, tick, *s, Self::diff_view(*old(d)), agent),
        ensures
            Self::diff_view(*final(d)) == Self::diff_after(
                *act,
                tick,
                *s,
                Self::diff_view(*old(d)),
                agent,
            ),
            r == Self::follow_up(*act, tick, *s, Self::diff_view(*old(d)), agent),
    ;

    /// The utility of `agent` under the composed state.
    fn get_current_value(tick: u64, s: &Self::State, d: &Self::Diff, agent: AgentId) -> (r: i64)
        requires
            Self::sane(*s, Self::diff_view(*d)),
            Self::present(*s, Self::diff_view(*d), agent),
        ensures
            r == Self::value_spec(tick, *s, Self::diff_view(*d), agent),
    ;

    /// The agents visible to `agent`, in the domain's deterministic order.
    fn update_visible_agents(tick: u64, s: &Self::State, d: &Self::Diff, agent: AgentId) -> (r:
        Vec<AgentId>)
        requires
            Self::sane(*s, Self::diff_view(*d)),
            Self::present(*s, Self::diff_view(*d), agent),
        ensures
            r@ == Self::visible_spec(tick, *s, Self::diff_view(*d), agent),
    ;

    /// The display tag of an action.
    fn display_action(act: &Self::Action) -> (r: Self::DisplayAction)
        ensures
            r == Self::display_spec(*act),
    ;

    /// Every enumerated candidate action is applicable to the diff it was
    /// enumerated against.
    proof fn law_task_applicable(
        tick: u64,
        s: Self::State,
        dv: Self::DiffV,
        agent: AgentId,
        act: Self::Action,
    )
        requires
            Self::sane(s, dv),
            Self::present(s, dv, agent),
            Self::tasks_spec(tick, s, dv, agent).contains(act),
        ensures
            Self::applicable(act, tick, s, dv, agent),
    ;

    /// The follow-up chained to an applicable action is itself applicable to
    /// the diff the action produced.
    proof fn law_follow_applicable(
        act: Self::Action,
        tick: u64,
        s: Self::State,
        dv: Self::DiffV,
        agent: AgentId,
    )
        requires
            Self::applicable(act, tick, s, dv, agent),
            Self::follow_up(act, tick, s, dv, agent) is Some,
        ensures
            Self::applicable(
                Self::follow_up(act, tick, s, dv, agent).unwrap(),
                tick,
                s,
                Self::diff_after(act, tick, s, dv, agent),
                agent,
            ),
    ;

    /// Applying an applicable action keeps the state/diff pair well formed.
    proof fn law_execute_sane(
        act: Self::Action,
        tick: u64,
        s: Self::State,
        dv: Self::DiffV,
        agent: AgentId,
    )
        requires
            Self::sane(s, dv),
            Self::applicable(act, tick, s, dv, agent),
        ensures
            Self::sane(s, Self::diff_after(act, tick, s, dv, agent)),
    ;

    /// Applying an applicable action never removes an agent.
    proof fn law_execute_present(
        act: Self::Action,
        tick: u64,
        s: Self::State,
        dv: Self::DiffV,
        agent: AgentId,
        other: AgentId,
    )
        requires
            Self::sane(s, dv),
            Self::applicable(act, tick, s, dv, agent),
            Self::present(s, dv, other),
        ensures
            Self::present(s, Self::diff_after(act, tick, s, dv, agent), other),
    ;

    /// Every visible agent can itself be looked up.
    proof fn law_visible_present(
        tick: u64,
        s: Self::State,
        dv: Self::DiffV,
        agent: AgentId,
        i: int,
    )
        requires
            Self::sane(s, dv),
            Self::present(s, dv, agent),
            0 <= i < Self::visible_spec(tick, s, dv, agent).len(),
        ensures
            Self::present(s, dv, Self::visible_spec(tick, s, dv, agent)[i]),
    ;
}

} // verus!
