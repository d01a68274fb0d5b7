//! The mathematical model of one planning run.
//!
//! Every function here is a pure, deterministic reading of what the planner
//! computes: how one action (plus its chained follow-up) transforms a diff,
//! how one opponent's greedy response is chosen, how a frontier node is
//! expanded into children, and how the per-branch score vector and the final
//! chosen branch come out.  The planner's contracts are stated over these
//! functions, so a planning run is pinned down exactly.

use vstd::prelude::*;

use super::domain::Domain;
use super::node::NodeModel;
use crate::state::AgentId;

verus! {

/// The larger of two utilities.
pub open spec fn max_i64(a: i64, b: i64) -> i64 {
    if b > a {
        b
    } else {
        a
    }
}

/// The diff after `agent` performs `act` followed by its chained follow-up
/// action, if any.  Only one chained action is applied: a follow-up's own
/// follow-up is discarded.
pub open spec fn apply_task<D: Domain>(
    act: D::Action,
    tick: u64,
    s: D::State,
    dv: D::DiffV,
    agent: AgentId,
) -> D::DiffV {
    let d1 = D::diff_after(act, tick, s, dv, agent);
    match D::follow_up(act, tick, s, dv, agent) {
        Some(f) => D::diff_after(f, tick, s, d1, agent),
        None => d1,
    }
}

/// The greedy scan over `acts`: each action is applied to `dv` on its own
/// clone, and the clone achieving the strictly greatest utility for `agent`
/// displaces the best one found so far (`best_d`, whose utility is `best_v`).
pub open spec fn greedy_from<D: Domain>(
    tick: u64,
    s: D::State,
    dv: D::DiffV,
    agent: AgentId,
    acts: Seq<D::Action>,
    best_v: i64,
    best_d: D::DiffV,
) -> D::DiffV
    decreases acts.len(),
{
    if acts.len() == 0 {
        best_d
    } else {
        let nd = apply_task::<D>(acts[0], tick, s, dv, agent);
        let v = D::value_spec(tick, s, nd, agent);
        if v > best_v {
            greedy_from::<D>(tick, s, dv, agent, acts.skip(1), v, nd)
        } else {
            greedy_from::<D>(tick, s, dv, agent, acts.skip(1), best_v, best_d)
        }
    }
}

/// One opponent's greedy response: the diff achieving the strictly greatest
/// utility for `agent` among its candidate actions, starting from the neutral
/// baseline of zero.  If no action scores strictly above the baseline, the
/// diff is left unchanged.
pub open spec fn greedy_step<D: Domain>(
    tick: u64,
    s: D::State,
    dv: D::DiffV,
    agent: AgentId,
) -> D::DiffV {
    greedy_from::<D>(tick, s, dv, agent, D::tasks_spec(tick, s, dv, agent), 0i64, dv)
}

/// Folds the greedy responses of `agents` into the diff, sequentially: each
/// later agent reacts to the already-applied responses of the earlier ones.
pub open spec fn fold_opponents<D: Domain>(
    tick: u64,
    s: D::State,
    dv: D::DiffV,
    agents: Seq<AgentId>,
) -> D::DiffV
    decreases agents.len(),
{
    if agents.len() == 0 {
        dv
    } else {
        fold_opponents::<D>(tick, s, greedy_step::<D>(tick, s, dv, agents[0]), agents.skip(1))
    }
}

/// The greatest utility of `root` among the children spawned from `dv` by the
/// actions `acts`; `i64::MIN` if there are none.
pub open spec fn best_child_value<D: Domain>(
    tick: u64,
    s: D::State,
    dv: D::DiffV,
    acts: Seq<D::Action>,
    root: AgentId,
) -> i64
    decreases acts.len(),
{
    if acts.len() == 0 {
        i64::MIN
    } else {
        let v = D::value_spec(tick, s, apply_task::<D>(acts[0], tick, s, dv, root), root);
        max_i64(v, best_child_value::<D>(tick, s, dv, acts.skip(1), root))
    }
}

/// The diff a frontier node expands from: the node's own diff with the greedy
/// responses of all agents visible to the root folded in.
pub open spec fn expansion_diff<D: Domain>(
    tick: u64,
    s: D::State,
    dv: D::DiffV,
    root: AgentId,
) -> D::DiffV {
    fold_opponents::<D>(tick, s, dv, D::visible_spec(tick, s, dv, root))
}

/// The child spawned from diff `dv` by the `k`-th action of `acts`, as a child
/// of frontier node `i` with originating branch `og`.
pub open spec fn spawned_child<D: Domain>(
    tick: u64,
    s: D::State,
    dv: D::DiffV,
    acts: Seq<D::Action>,
    root: AgentId,
    i: int,
    og: usize,
    k: int,
) -> NodeModel<D> {
    NodeModel {
        diff: apply_task::<D>(acts[k], tick, s, dv, root),
        score: D::value_spec(tick, s, apply_task::<D>(acts[k], tick, s, dv, root), root),
        parent: Some(i as usize),
        og_parent: Some(og),
        children: Seq::empty(),
    }
}

/// The expansion of frontier node `i`: the visible agents' greedy responses
/// are folded into its diff, one child is spawned per root candidate action,
/// the children are attached to node `i`, and the score slot of node `i`'s
/// branch is raised to the greatest utility among the new children.
pub open spec fn node_expansion<D: Domain>(
    s: D::State,
    tick: u64,
    nodes: Seq<NodeModel<D>>,
    scores: Seq<i64>,
    i: int,
    root: AgentId,
) -> (Seq<NodeModel<D>>, Seq<i64>) {
    let dv = expansion_diff::<D>(tick, s, nodes[i].diff, root);
    let acts = D::tasks_spec(tick, s, dv, root);
    let og = nodes[i].og_parent.unwrap();
    let n0 = nodes.len() as int;
    let kids = Seq::new(
        acts.len(),
        |k: int| spawned_child::<D>(tick, s, dv, acts, root, i, og, k),
    );
    let tags = Seq::new(
        acts.len(),
        |k: int| (D::display_spec(acts[k]), (n0 + k) as usize),
    );
    let high = best_child_value::<D>(tick, s, dv, acts, root);
    let slot = og - 1;
    (
        nodes.update(i, NodeModel { children: tags, ..nodes[i] }) + kids,
        scores.update(slot as int, max_i64(scores[slot as int], high)),
    )
}

/// The expansion of every frontier node with index in `[i, end)`, in
/// increasing index order.
pub open spec fn expansion_range<D: Domain>(
    s: D::State,
    tick: u64,
    nodes: Seq<NodeModel<D>>,
    scores: Seq<i64>,
    i: int,
    end: int,
    root: AgentId,
) -> (Seq<NodeModel<D>>, Seq<i64>)
    decreases end - i,
{
    if i >= end {
        (nodes, scores)
    } else {
        let (n2, s2) = node_expansion::<D>(s, tick, nodes, scores, i, root);
        expansion_range::<D>(s, tick, n2, s2, i + 1, end, root)
    }
}

/// The tick at which level `level` of a run starting at `t0` is expanded.
pub open spec fn tick_of(t0: u64, level: int) -> u64 {
    (t0 + level) as u64
}

/// Runs the levels `level ..= depth`, each expanding the frontier `[start,
/// end)` left by the previous one and leaving the nodes it created as the next
/// frontier.
pub open spec fn run_from<D: Domain>(
    s: D::State,
    t0: u64,
    nodes: Seq<NodeModel<D>>,
    scores: Seq<i64>,
    level: int,
    depth: int,
    start: int,
    end: int,
    root: AgentId,
) -> (Seq<NodeModel<D>>, Seq<i64>)
    decreases depth + 1 - level,
{
    if level > depth {
        (nodes, scores)
    } else {
        let (n2, s2) = expansion_range::<D>(s, tick_of(t0, level), nodes, scores, start, end, root);
        run_from::<D>(s, t0, n2, s2, level + 1, depth, end, n2.len() as int, root)
    }
}

/// The first index of the strictly greatest score at or after `i`, given the
/// best score `best_v` first seen at index `best_i` so far.
pub open spec fn best_slot(scores: Seq<i64>, i: int, best_v: i64, best_i: int) -> int
    decreases scores.len() - i,
{
    if i >= scores.len() {
        best_i
    } else if scores[i] > best_v {
        best_slot(scores, i + 1, scores[i], i)
    } else {
        best_slot(scores, i + 1, best_v, best_i)
    }
}

/// The branch the selector picks: the first index holding the greatest score.
pub open spec fn selected_branch(scores: Seq<i64>) -> int {
    best_slot(scores, 0, i64::MIN, 0)
}

/// The root agent's candidate actions, enumerated against the empty diff at
/// construction time; branch `k` of the tree corresponds to `candidates[k]`.
pub open spec fn candidates_of<D: Domain>(root: AgentId, s: D::State, t0: u64) -> Seq<D::Action> {
    D::tasks_spec(t0, s, D::empty_diff_spec(), root)
}

/// The top-level child of the root spawned by candidate `k`; it is its own
/// originating branch.
pub open spec fn initial_child<D: Domain>(root: AgentId, s: D::State, t0: u64, k: int) -> NodeModel<
    D,
> {
    let cands = candidates_of::<D>(root, s, t0);
    let dv = apply_task::<D>(cands[k], t0, s, D::empty_diff_spec(), root);
    NodeModel {
        diff: dv,
        score: D::value_spec(t0, s, dv, root),
        parent: Some(0),
        og_parent: Some((k + 1) as usize),
        children: Seq::empty(),
    }
}

/// The arena right after construction: the root node with one child per
/// candidate action.
pub open spec fn initial_nodes<D: Domain>(root: AgentId, s: D::State, t0: u64) -> Seq<NodeModel<
    D,
>> {
    let cands = candidates_of::<D>(root, s, t0);
    let root_node = NodeModel::<D> {
        diff: D::empty_diff_spec(),
        score: 0,
        parent: None,
        og_parent: None,
        children: Seq::new(cands.len(), |k: int| (D::display_spec(cands[k]), (k + 1) as usize)),
    };
    seq![root_node] + Seq::new(cands.len(), |k: int| initial_child::<D>(root, s, t0, k))
}

/// The score vector right after construction: each branch's slot records the
/// utility of its top-level child, the only descendant observed so far.
pub open spec fn initial_scores<D: Domain>(root: AgentId, s: D::State, t0: u64) -> Seq<i64> {
    Seq::new(
        candidates_of::<D>(root, s, t0).len(),
        |k: int| initial_child::<D>(root, s, t0, k).score,
    )
}

/// The arena and score vector after a full run of depth `depth`.
pub open spec fn final_state<D: Domain>(root: AgentId, s: D::State, t0: u64, depth: int) -> (
    Seq<NodeModel<D>>,
    Seq<i64>,
) {
    run_from::<D>(
        s,
        t0,
        initial_nodes::<D>(root, s, t0),
        initial_scores::<D>(root, s, t0),
        1,
        depth,
        1,
        initial_nodes::<D>(root, s, t0).len() as int,
        root,
    )
}

/// The action a full planning run chooses: the candidate action of the branch
/// whose recorded score is greatest (ties resolve to the lowest branch index),
/// or none if there are no candidates.
pub open spec fn plan_choice<D: Domain>(root: AgentId, s: D::State, t0: u64, depth: int) -> Option<
    D::Action,
> {
    let cands = candidates_of::<D>(root, s, t0);
    if cands.len() == 0 {
        None
    } else {
        Some(cands[selected_branch(final_state::<D>(root, s, t0, depth).1)])
    }
}

/// Applying an applicable action, follow-up included, keeps the pair well
/// formed and removes no agent.
pub proof fn lemma_apply_task_ok<D: Domain>(
    act: D::Action,
    tick: u64,
    s: D::State,
    dv: D::DiffV,
    agent: AgentId,
)
    requires
        D::sane(s, dv),
        D::applicable(act, tick, s, dv, agent),
    ensures
        D::sane(s, apply_task::<D>(act, tick, s, dv, agent)),
        forall|x: AgentId|
            D::present(s, dv, x) ==> #[trigger] D::present(
                s,
                apply_task::<D>(act, tick, s, dv, agent),
                x,
            ),
{
    let d1 = D::diff_after(act, tick, s, dv, agent);
    D::law_execute_sane(act, tick, s, dv, agent);
    assert forall|x: AgentId| D::present(s, dv, x) implies #[trigger] D::present(s, d1, x) by {
        D::law_execute_present(act, tick, s, dv, agent, x);
    }
    match D::follow_up(act, tick, s, dv, agent) {
        Some(f) => {
            D::law_follow_applicable(act, tick, s, dv, agent);
            D::law_execute_sane(f, tick, s, d1, agent);
            assert forall|x: AgentId| D::present(s, dv, x) implies #[trigger] D::present(
                s,
                D::diff_after(f, tick, s, d1, agent),
                x,
            ) by {
                D::law_execute_present(f, tick, s, d1, agent, x);
            }
        },
        None => {},
    }
}

/// The greedy scan keeps the pair well formed and removes no agent, as long as
/// every scanned action was enumerated against the base diff.
pub proof fn lemma_greedy_from_ok<D: Domain>(
    tick: u64,
    s: D::State,
    dv: D::DiffV,
    agent: AgentId,
    acts: Seq<D::Action>,
    best_v: i64,
    best_d: D::DiffV,
)
    requires
        D::sane(s, dv),
        D::present(s, dv, agent),
        D::sane(s, best_d),
        forall|x: AgentId| D::present(s, dv, x) ==> #[trigger] D::present(s, best_d, x),
        forall|j: int|
            0 <= j < acts.len() ==> D::tasks_spec(tick, s, dv, agent).contains(#[trigger] acts[j]),
    ensures
        D::sane(s, greedy_from::<D>(tick, s, dv, agent, acts, best_v, best_d)),
        forall|x: AgentId|
            D::present(s, dv, x) ==> #[trigger] D::present(
                s,
                greedy_from::<D>(tick, s, dv, agent, acts, best_v, best_d),
                x,
            ),
    decreases acts.len(),
{
    if acts.len() > 0 {
        D::law_task_applicable(tick, s, dv, agent, acts[0]);
        lemma_apply_task_ok::<D>(acts[0], tick, s, dv, agent);
        let nd = apply_task::<D>(acts[0], tick, s, dv, agent);
        let v = D::value_spec(tick, s, nd, agent);
        assert forall|j: int| 0 <= j < acts.skip(1).len() implies D::tasks_spec(
            tick,
            s,
            dv,
            agent,
        ).contains(#[trigger] acts.skip(1)[j]) by {
            assert(acts.skip(1)[j] == acts[j + 1]);
        }
        if v > best_v {
            lemma_greedy_from_ok::<D>(tick, s, dv, agent, acts.skip(1), v, nd);
        } else {
            lemma_greedy_from_ok::<D>(tick, s, dv, agent, acts.skip(1), best_v, best_d);
        }
    }
}

/// One opponent's greedy response keeps the pair well formed and removes no
/// agent.
pub proof fn lemma_greedy_step_ok<D: Domain>(tick: u64, s: D::State, dv: D::DiffV, agent: AgentId)
    requires
        D::sane(s, dv),
        D::present(s, dv, agent),
    ensures
        D::sane(s, greedy_step::<D>(tick, s, dv, agent)),
        forall|x: AgentId|
            D::present(s, dv, x) ==> #[trigger] D::present(
                s,
                greedy_step::<D>(tick, s, dv, agent),
                x,
            ),
{
    lemma_greedy_from_ok::<D>(tick, s, dv, agent, D::tasks_spec(tick, s, dv, agent), 0i64, dv);
}

/// Folding any sequence of present opponents keeps the pair well formed and
/// removes no agent.
pub proof fn lemma_fold_opponents_ok<D: Domain>(
    tick: u64,
    s: D::State,
    dv: D::DiffV,
    agents: Seq<AgentId>,
)
    requires
        D::sane(s, dv),
        forall|k: int| 0 <= k < agents.len() ==> D::present(s, dv, #[trigger] agents[k]),
    ensures
        D::sane(s, fold_opponents::<D>(tick, s, dv, agents)),
        forall|x: AgentId|
            D::present(s, dv, x) ==> #[trigger] D::present(
                s,
                fold_opponents::<D>(tick, s, dv, agents),
                x,
            ),
    decreases agents.len(),
{
    if agents.len() > 0 {
        lemma_greedy_step_ok::<D>(tick, s, dv, agents[0]);
        let d1 = greedy_step::<D>(tick, s, dv, agents[0]);
        assert forall|k: int| 0 <= k < agents.skip(1).len() implies D::present(
            s,
            d1,
            #[trigger] agents.skip(1)[k],
        ) by {
            assert(agents.skip(1)[k] == agents[k + 1]);
        }
        lemma_fold_opponents_ok::<D>(tick, s, d1, agents.skip(1));
    }
}

/// The diff a frontier node expands from is well formed and removes no agent.
pub proof fn lemma_expansion_diff_ok<D: Domain>(
    tick: u64,
    s: D::State,
    dv: D::DiffV,
    root: AgentId,
)
    requires
        D::sane(s, dv),
        D::present(s, dv, root),
    ensures
        D::sane(s, expansion_diff::<D>(tick, s, dv, root)),
        forall|x: AgentId|
            D::present(s, dv, x) ==> #[trigger] D::present(
                s,
                expansion_diff::<D>(tick, s, dv, root),
                x,
            ),
{
    let vis = D::visible_spec(tick, s, dv, root);
    assert forall|k: int| 0 <= k < vis.len() implies D::present(s, dv, #[trigger] vis[k]) by {
        D::law_visible_present(tick, s, dv, root, k);
    }
    lemma_fold_opponents_ok::<D>(tick, s, dv, vis);
}

} // verus!
