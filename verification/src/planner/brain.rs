//! The lookahead planner.
//!
//! Where a Monte-Carlo tree search explores selectively, this planner tries
//! every candidate action of one "root" agent exhaustively for a configured
//! number of levels, while modeling every other visible agent greedily (one
//! step of utility maximization each), and finally picks the root's first
//! action on the branch whose subtree attained the best observed utility.
//!
//! The whole run is pinned down by the contracts: construction builds exactly
//! [`initial_nodes`]/[`initial_scores`], a run transforms them exactly as
//! [`run_from`] says, and the chosen action is exactly [`plan_choice`].

use vstd::prelude::*;

use super::domain::Domain;
use super::model::apply_task;
use super::model::best_child_value;
use super::model::best_slot;
use super::model::candidates_of;
use super::model::expansion_diff;
use super::model::expansion_range;
use super::model::final_state;
use super::model::fold_opponents;
use super::model::greedy_from;
use super::model::greedy_step;
use super::model::initial_child;
use super::model::initial_nodes;
use super::model::initial_scores;
use super::model::lemma_apply_task_ok;
use super::model::lemma_expansion_diff_ok;
use super::model::lemma_greedy_step_ok;
use super::model::max_i64;
use super::model::node_expansion;
use super::model::plan_choice;
use super::model::run_from;
use super::model::selected_branch;
use super::model::spawned_child;
use super::model::tick_of;
use super::node::Node;
use super::node::NodeModel;
use crate::state::AgentId;

verus! {

/// The planner's configuration: how many lookahead levels to simulate, and how
/// many ticks a planning task occupies in the execution queue (if any).
#[derive(Clone, Debug, Default)]
pub struct BRAINConfiguration {
    pub depth: u32,
    pub planning_task_duration: Option<u64>,
}

/// The mathematical view of a [`Brain`].
pub ghost struct BrainModel<D: Domain> {
    pub depth: u32,
    pub root_agent: AgentId,
    pub nodes: Seq<NodeModel<D>>,
    pub scores: Seq<i64>,
    pub initial_state: D::State,
    pub start_tick: u64,
    pub candidates: Seq<D::Action>,
    pub best_task: Option<D::Action>,
}

/// The arena invariant: at least the root node exists, every non-root node
/// records an originating branch within the score vector's range, and every
/// node's diff is well formed and keeps the root agent present.
pub open spec fn arena_ok<D: Domain>(
    s: D::State,
    root: AgentId,
    nodes: Seq<NodeModel<D>>,
    scores: Seq<i64>,
) -> bool {
    &&& nodes.len() >= 1
    &&& forall|i: int|
        1 <= i < nodes.len() ==> (#[trigger] nodes[i].og_parent) is Some && 1
            <= nodes[i].og_parent.unwrap() <= scores.len()
    &&& forall|i: int| 0 <= i < nodes.len() ==> D::sane(s, #[trigger] nodes[i].diff)
    &&& forall|i: int| 0 <= i < nodes.len() ==> D::present(s, #[trigger] nodes[i].diff, root)
}

/// The planner's invariant.
pub open spec fn wf_model<D: Domain>(m: BrainModel<D>) -> bool {
    &&& m.scores.len() == m.candidates.len()
    &&& m.start_tick + m.depth <= u64::MAX
    &&& arena_ok::<D>(m.initial_state, m.root_agent, m.nodes, m.scores)
}

/// The arena and score vector a run leaves behind.
pub open spec fn run_result<D: Domain>(m: BrainModel<D>) -> (Seq<NodeModel<D>>, Seq<i64>) {
    run_from::<D>(
        m.initial_state,
        m.start_tick,
        m.nodes,
        m.scores,
        1,
        m.depth as int,
        1,
        m.nodes.len() as int,
        m.root_agent,
    )
}

/// The task a run chooses: the candidate of the branch with the greatest
/// recorded score, ties to the lowest branch index, or none without
/// candidates.
pub open spec fn run_choice<D: Domain>(m: BrainModel<D>) -> Option<D::Action> {
    if m.candidates.len() == 0 {
        None
    } else {
        Some(m.candidates[selected_branch(run_result::<D>(m).1)])
    }
}

/// Expanding one frontier node keeps the arena invariant, only grows the
/// arena, never changes the score vector's length, never lowers a score, and
/// leaves the root node untouched.
pub proof fn lemma_node_expansion_ok<D: Domain>(
    s: D::State,
    tick: u64,
    nodes: Seq<NodeModel<D>>,
    scores: Seq<i64>,
    i: int,
    root: AgentId,
)
    requires
        arena_ok::<D>(s, root, nodes, scores),
        1 <= i < nodes.len(),
    ensures
        arena_ok::<D>(s, root, node_expansion::<D>(s, tick, nodes, scores, i, root).0, node_expansion::<D>(s, tick, nodes, scores, i, root).1),
        node_expansion::<D>(s, tick, nodes, scores, i, root).0.len() >= nodes.len(),
        node_expansion::<D>(s, tick, nodes, scores, i, root).1.len() == scores.len(),
        forall|j: int|
            0 <= j < scores.len() ==> node_expansion::<D>(s, tick, nodes, scores, i, root).1[j]
                >= scores[j],
        node_expansion::<D>(s, tick, nodes, scores, i, root).0[0] == nodes[0],
{
    let dv = expansion_diff::<D>(tick, s, nodes[i].diff, root);
    let acts = D::tasks_spec(tick, s, dv, root);
    let (n2, s2) = node_expansion::<D>(s, tick, nodes, scores, i, root);
    lemma_expansion_diff_ok::<D>(tick, s, nodes[i].diff, root);
    assert forall|j: int| 1 <= j < n2.len() implies (#[trigger] n2[j].og_parent) is Some && 1
        <= n2[j].og_parent.unwrap() <= s2.len() by {
        if j >= nodes.len() {
            assert(n2[j] == spawned_child::<D>(
                tick,
                s,
                dv,
                acts,
                root,
                i,
                nodes[i].og_parent.unwrap(),
                j - nodes.len(),
            ));
        }
    }
    assert forall|j: int| 0 <= j < n2.len() implies D::sane(s, #[trigger] n2[j].diff) && D::present(
        s,
        n2[j].diff,
        root,
    ) by {
        if j >= nodes.len() {
            let k = j - nodes.len();
            assert(acts.contains(acts[k]));
            D::law_task_applicable(tick, s, dv, root, acts[k]);
            lemma_apply_task_ok::<D>(acts[k], tick, s, dv, root);
        }
    }
}

/// Expanding a whole frontier keeps the arena invariant, only grows the arena,
/// never changes the score vector's length, never lowers a score, and leaves
/// the root node untouched.
pub proof fn lemma_expansion_range_ok<D: Domain>(
    s: D::State,
    tick: u64,
    nodes: Seq<NodeModel<D>>,
    scores: Seq<i64>,
    i: int,
    end: int,
    root: AgentId,
)
    requires
        arena_ok::<D>(s, root, nodes, scores),
        1 <= i <= end <= nodes.len(),
    ensures
        arena_ok::<D>(s, root, expansion_range::<D>(s, tick, nodes, scores, i, end, root).0, expansion_range::<D>(s, tick, nodes, scores, i, end, root).1),
        expansion_range::<D>(s, tick, nodes, scores, i, end, root).0.len() >= nodes.len(),
        expansion_range::<D>(s, tick, nodes, scores, i, end, root).1.len() == scores.len(),
        forall|j: int|
            0 <= j < scores.len() ==> expansion_range::<D>(s, tick, nodes, scores, i, end, root).1[j] >= scores[j],
        expansion_range::<D>(s, tick, nodes, scores, i, end, root).0[0] == nodes[0],
    decreases end - i,
{
    if i < end {
        lemma_node_expansion_ok::<D>(s, tick, nodes, scores, i, root);
        let (n2, s2) = node_expansion::<D>(s, tick, nodes, scores, i, root);
        lemma_expansion_range_ok::<D>(s, tick, n2, s2, i + 1, end, root);
    }
}

/// Running any span of levels keeps the arena invariant, only grows the arena,
/// never changes the score vector's length, never lowers a score, and leaves
/// the root node untouched.
pub proof fn lemma_run_from_ok<D: Domain>(
    s: D::State,
    t0: u64,
    nodes: Seq<NodeModel<D>>,
    scores: Seq<i64>,
    level: int,
    depth: int,
    start: int,
    end: int,
    root: AgentId,
)
    requires
        arena_ok::<D>(s, root, nodes, scores),
        1 <= start <= end <= nodes.len(),
    ensures
        arena_ok::<D>(s, root, run_from::<D>(s, t0, nodes, scores, level, depth, start, end, root).0, run_from::<D>(s, t0, nodes, scores, level, depth, start, end, root).1),
        run_from::<D>(s, t0, nodes, scores, level, depth, start, end, root).0.len() >= nodes.len(),
        run_from::<D>(s, t0, nodes, scores, level, depth, start, end, root).1.len() == scores.len(),
        forall|j: int|
            0 <= j < scores.len() ==> run_from::<D>(s, t0, nodes, scores, level, depth, start, end, root).1[j] >= scores[j],
        run_from::<D>(s, t0, nodes, scores, level, depth, start, end, root).0[0] == nodes[0],
    decreases depth + 1 - level,
{
    if level <= depth {
        lemma_expansion_range_ok::<D>(s, tick_of(t0, level), nodes, scores, start, end, root);
        let (n2, s2) = expansion_range::<D>(s, tick_of(t0, level), nodes, scores, start, end, root);
        lemma_run_from_ok::<D>(s, t0, n2, s2, level + 1, depth, end, n2.len() as int, root);
    }
}

/// The planner: a tree of game states explored breadth first, one instance per
/// planning request.
pub struct Brain<D: Domain> {
    depth: u32,
    root_agent: AgentId,
    nodes: Vec<Node<D>>,
    scores: Vec<i64>,
    initial_state: D::State,
    start_tick: u64,
    candidates: Vec<D::Action>,
    best_task: Option<D::Action>,
}

impl<D: Domain> View for Brain<D> {
    type V = BrainModel<D>;

    closed spec fn view(&self) -> BrainModel<D> {
        BrainModel {
            depth: self.depth,
            root_agent: self.root_agent,
            nodes: self.nodes@.map_values(|n: Node<D>| n@),
            scores: self.scores@,
            initial_state: self.initial_state,
            start_tick: self.start_tick,
            candidates: self.candidates@,
            best_task: self.best_task,
        }
    }
}

/// One opponent's greedy response, executed: the diff achieving the strictly
/// greatest utility for `agent` among its candidate actions, or a copy of the
/// current diff if nothing scores above the neutral baseline.
fn greedy_pick<D: Domain>(tick: u64, s: &D::State, d: &D::Diff, agent: AgentId) -> (r: D::Diff)
    requires
        D::sane(*s, D::diff_view(*d)),
        D::present(*s, D::diff_view(*d), agent),
    ensures
        D::diff_view(r) == greedy_step::<D>(tick, *s, D::diff_view(*d), agent),
{
    let ghost dv = D::diff_view(*d);
    let tasks = D::get_tasks(tick, s, d, agent);
    let mut best_v: i64 = 0;
    let mut best_d: D::Diff = D::clone_diff(d);
    let n = tasks.len();
    let mut k: usize = 0;
    proof {
        assert(tasks@.skip(0) =~= tasks@);
    }
    while k < n
        invariant
            k <= n,
            n == tasks@.len(),
            tasks@ == D::tasks_spec(tick, *s, dv, agent),
            dv == D::diff_view(*d),
            D::sane(*s, dv),
            D::present(*s, dv, agent),
            greedy_from::<D>(tick, *s, dv, agent, tasks@.skip(k as int), best_v, D::diff_view(best_d))
                == greedy_step::<D>(tick, *s, dv, agent),
        decreases n - k,
    {
        let ghost rest = tasks@.skip(k as int);
        proof {
            assert(tasks@.contains(tasks@[k as int]));
            D::law_task_applicable(tick, *s, dv, agent, tasks@[k as int]);
        }
        let mut nd = D::clone_diff(d);
        let follow = D::execute(&tasks[k], tick, s, &mut nd, agent);
        if let Some(f) = follow {
            proof {
                D::law_follow_applicable(tasks@[k as int], tick, *s, dv, agent);
            }
            let _ = D::execute(&f, tick, s, &mut nd, agent);
        }
        proof {
            assert(D::diff_view(nd) == apply_task::<D>(tasks@[k as int], tick, *s, dv, agent));
            lemma_apply_task_ok::<D>(tasks@[k as int], tick, *s, dv, agent);
        }
        let v = D::get_current_value(tick, s, &nd, agent);
        proof {
            assert(rest[0] == tasks@[k as int]);
            assert(rest.skip(1) =~= tasks@.skip(k as int + 1));
        }
        if v > best_v {
            best_v = v;
            best_d = nd;
        }
        k += 1;
    }
    proof {
        assert(tasks@.skip(n as int) =~= Seq::<D::Action>::empty());
    }
    best_d
}

/// Folds the greedy responses of `agents` into the diff, sequentially.
fn fold_opponents_exec<D: Domain>(
    tick: u64,
    s: &D::State,
    d: D::Diff,
    agents: &Vec<AgentId>,
) -> (r: D::Diff)
    requires
        D::sane(*s, D::diff_view(d)),
        forall|k: int|
            0 <= k < agents@.len() ==> D::present(*s, D::diff_view(d), #[trigger] agents@[k]),
    ensures
        D::diff_view(r) == fold_opponents::<D>(tick, *s, D::diff_view(d), agents@),
{
    let ghost dv0 = D::diff_view(d);
    let mut d = d;
    let n = agents.len();
    let mut j: usize = 0;
    proof {
        assert(agents@.skip(0) =~= agents@);
    }
    while j < n
        invariant
            j <= n,
            n == agents@.len(),
            D::sane(*s, D::diff_view(d)),
            forall|k: int|
                j <= k < n ==> D::present(*s, D::diff_view(d), #[trigger] agents@[k]),
            fold_opponents::<D>(tick, *s, D::diff_view(d), agents@.skip(j as int))
                == fold_opponents::<D>(tick, *s, dv0, agents@),
        decreases n - j,
    {
        let ghost dv = D::diff_view(d);
        let ghost rest = agents@.skip(j as int);
        proof {
            assert(rest[0] == agents@[j as int]);
            assert(rest.skip(1) =~= agents@.skip(j as int + 1));
            lemma_greedy_step_ok::<D>(tick, *s, dv, agents@[j as int]);
        }
        d = greedy_pick::<D>(tick, s, &d, agents[j]);
        j += 1;
    }
    proof {
        assert(agents@.skip(n as int) =~= Seq::<AgentId>::empty());
    }
    d
}

impl<D: Domain> Brain<D> {
    /// How many nodes the arena holds.
    pub fn node_count(&self) -> (r: usize)
        ensures
            r == self@.nodes.len(),
    {
        self.nodes.len()
    }

    /// The node at index `i`.
    pub fn node(&self, i: usize) -> (r: &Node<D>)
        requires
            i < self@.nodes.len(),
        ensures
            r@ == self@.nodes[i as int],
    {
        &self.nodes[i]
    }

    /// The per-branch best scores observed so far.
    pub fn scores(&self) -> (r: &Vec<i64>)
        ensures
            r@ == self@.scores,
    {
        &self.scores
    }

    /// The task chosen by the last run, if any.
    pub fn best_task(&self) -> (r: Option<D::Action>)
        ensures
            r == self@.best_task,
    {
        match &self.best_task {
            None => None,
            Some(t) => Some(D::clone_action(t)),
        }
    }

    /// Builds the tree root and its immediate children: the root agent's
    /// candidate actions are enumerated against the empty diff, each is
    /// applied on its own clone, and each branch's score slot records its
    /// child's utility.
    pub fn new(root_agent: AgentId, initial_state: D::State, start_tick: u64, depth: u32) -> (r:
        Brain<D>)
        requires
            D::sane(initial_state, D::empty_diff_spec()),
            D::present(initial_state, D::empty_diff_spec(), root_agent),
            start_tick + depth <= u64::MAX,
        ensures
            r@.depth == depth,
            r@.root_agent == root_agent,
            r@.initial_state == initial_state,
            r@.start_tick == start_tick,
            r@.best_task is None,
            r@.candidates == candidates_of::<D>(root_agent, initial_state, start_tick),
            r@.nodes == initial_nodes::<D>(root_agent, initial_state, start_tick),
            r@.scores == initial_scores::<D>(root_agent, initial_state, start_tick),
            wf_model(r@),
    {
        let diff = D::empty_diff();
        let ghost dv0 = D::diff_view(diff);
        let candidates = D::get_tasks(start_tick, &initial_state, &diff, root_agent);
        let ghost cands = candidates@;

        let mut new_nodes: Vec<Node<D>> = Vec::new();
        let mut children: Vec<(D::DisplayAction, usize)> = Vec::new();
        let mut scores: Vec<i64> = Vec::new();

        let n = candidates.len();
        let mut k: usize = 0;
        while k < n
            invariant
                k <= n,
                n == cands.len(),
                cands == candidates@,
                cands == candidates_of::<D>(root_agent, initial_state, start_tick),
                dv0 == D::empty_diff_spec(),
                D::sane(initial_state, dv0),
                D::present(initial_state, dv0, root_agent),
                D::diff_view(diff) == dv0,
                new_nodes@.map_values(|nd: Node<D>| nd@) == Seq::new(
                    k as nat,
                    |j: int| initial_child::<D>(root_agent, initial_state, start_tick, j),
                ),
                children@ == Seq::new(
                    k as nat,
                    |j: int| (D::display_spec(cands[j]), (j + 1) as usize),
                ),
                scores@ == Seq::new(
                    k as nat,
                    |j: int| initial_child::<D>(root_agent, initial_state, start_tick, j).score,
                ),
            decreases n - k,
        {
            proof {
                assert(cands.contains(cands[k as int]));
                D::law_task_applicable(start_tick, initial_state, dv0, root_agent, cands[k as int]);
            }
            let mut d = D::clone_diff(&diff);
            let follow = D::execute(&candidates[k], start_tick, &initial_state, &mut d, root_agent);
            if let Some(f) = follow {
                proof {
                    D::law_follow_applicable(cands[k as int], start_tick, initial_state, dv0, root_agent);
                }
                let _ = D::execute(&f, start_tick, &initial_state, &mut d, root_agent);
            }
            proof {
                assert(D::diff_view(d) == apply_task::<D>(
                    cands[k as int],
                    start_tick,
                    initial_state,
                    dv0,
                    root_agent,
                ));
                lemma_apply_task_ok::<D>(cands[k as int], start_tick, initial_state, dv0, root_agent);
            }
            let score = D::get_current_value(start_tick, &initial_state, &d, root_agent);
            let ghost old_kids = new_nodes@.map_values(|nd: Node<D>| nd@);
            children.push((D::display_action(&candidates[k]), k + 1));
            new_nodes.push(Node::new(d, score, Some(0), Some(k + 1), Vec::new()));
            scores.push(score);
            proof {
                assert(new_nodes@.map_values(|nd: Node<D>| nd@) =~= old_kids.push(
                    new_nodes@[k as int]@,
                ));
                assert(new_nodes@[k as int]@ == initial_child::<D>(
                    root_agent,
                    initial_state,
                    start_tick,
                    k as int,
                ));
                assert(new_nodes@.map_values(|nd: Node<D>| nd@) =~= Seq::new(
                    (k + 1) as nat,
                    |j: int| initial_child::<D>(root_agent, initial_state, start_tick, j),
                ));
                assert(children@ =~= Seq::new(
                    (k + 1) as nat,
                    |j: int| (D::display_spec(cands[j]), (j + 1) as usize),
                ));
                assert(scores@ =~= Seq::new(
                    (k + 1) as nat,
                    |j: int| initial_child::<D>(root_agent, initial_state, start_tick, j).score,
                ));
            }
            k += 1;
        }

        let root_node: Node<D> = Node::new(diff, 0, None, None, children);
        let mut nodes: Vec<Node<D>> = Vec::new();
        nodes.push(root_node);
        nodes.append(&mut new_nodes);

        let r = Brain {
            depth,
            root_agent,
            nodes,
            scores,
            initial_state,
            start_tick,
            candidates,
            best_task: None,
        };
        proof {
            assert(r@.nodes =~= initial_nodes::<D>(root_agent, r@.initial_state, start_tick));
            assert(r@.scores =~= initial_scores::<D>(root_agent, r@.initial_state, start_tick));
            assert forall|i: int| 0 <= i < r@.nodes.len() implies D::sane(
                r@.initial_state,
                #[trigger] r@.nodes[i].diff,
            ) && D::present(r@.initial_state, r@.nodes[i].diff, root_agent) by {
                if i >= 1 {
                    assert(r@.nodes[i] == initial_child::<D>(
                        root_agent,
                        r@.initial_state,
                        start_tick,
                        i - 1,
                    ));
                    assert(cands.contains(cands[i - 1]));
                    D::law_task_applicable(
                        start_tick,
                        r@.initial_state,
                        dv0,
                        root_agent,
                        cands[i - 1],
                    );
                    lemma_apply_task_ok::<D>(
                        cands[i - 1],
                        start_tick,
                        r@.initial_state,
                        dv0,
                        root_agent,
                    );
                }
            }
        }
        r
    }

    /// Expands one frontier node: the greedy responses of all agents visible
    /// to the root are folded into its diff, then one child is spawned per
    /// root candidate action and the node's branch score slot is raised to the
    /// greatest utility among the new children.
    fn expand_node(&mut self, tick: u64, i: usize)
        requires
            arena_ok::<D>(
                old(self)@.initial_state,
                old(self)@.root_agent,
                old(self)@.nodes,
                old(self)@.scores,
            ),
            1 <= i < old(self)@.nodes.len(),
        ensures
            final(self)@.depth == old(self)@.depth,
            final(self)@.root_agent == old(self)@.root_agent,
            final(self)@.initial_state == old(self)@.initial_state,
            final(self)@.start_tick == old(self)@.start_tick,
            final(self)@.candidates == old(self)@.candidates,
            final(self)@.best_task == old(self)@.best_task,
            (final(self)@.nodes, final(self)@.scores) == node_expansion::<D>(
                old(self)@.initial_state,
                tick,
                old(self)@.nodes,
                old(self)@.scores,
                i as int,
                old(self)@.root_agent,
            ),
    {
        let ghost m0 = self@;
        let ghost st = m0.initial_state;
        let root = self.root_agent;

        let db = self.nodes[i].diff();
        let og = self.nodes[i].og_parent().unwrap();
        proof {
            assert(D::diff_view(db) == m0.nodes[i as int].diff);
        }
        let vis = D::update_visible_agents(tick, &self.initial_state, &db, root);
        proof {
            assert forall|k: int| 0 <= k < vis@.len() implies D::present(
                st,
                D::diff_view(db),
                #[trigger] vis@[k],
            ) by {
                D::law_visible_present(tick, st, D::diff_view(db), root, k);
            }
        }
        let d1 = fold_opponents_exec::<D>(tick, &self.initial_state, db, &vis);
        let ghost dv1 = D::diff_view(d1);
        proof {
            assert(dv1 == expansion_diff::<D>(tick, st, m0.nodes[i as int].diff, root));
            lemma_expansion_diff_ok::<D>(tick, st, m0.nodes[i as int].diff, root);
        }
        let tasks = D::get_tasks(tick, &self.initial_state, &d1, root);
        let ghost acts = tasks@;

        let ghost n0 = m0.nodes.len() as int;
        let mut tags: Vec<(D::DisplayAction, usize)> = Vec::new();
        let mut high: i64 = i64::MIN;
        let nacts = tasks.len();
        let mut k: usize = 0;
        proof {
            assert(acts.skip(0) =~= acts);
        }
        while k < nacts
            invariant
                k <= nacts,
                nacts == acts.len(),
                tasks@ == acts,
                acts == D::tasks_spec(tick, st, dv1, root),
                D::sane(st, dv1),
                D::present(st, dv1, root),
                dv1 == D::diff_view(d1),
                i < n0,
                self@.depth == m0.depth,
                self@.root_agent == m0.root_agent,
                root == m0.root_agent,
                self@.initial_state == st,
                self@.start_tick == m0.start_tick,
                self@.candidates == m0.candidates,
                self@.best_task == m0.best_task,
                self@.scores == m0.scores,
                self@.nodes.len() == n0 + k,
                self@.nodes == m0.nodes + Seq::new(
                    k as nat,
                    |j: int| spawned_child::<D>(tick, st, dv1, acts, root, i as int, og, j),
                ),
                tags@ == Seq::new(
                    k as nat,
                    |j: int| (D::display_spec(acts[j]), (n0 + j) as usize),
                ),
                max_i64(high, best_child_value::<D>(tick, st, dv1, acts.skip(k as int), root))
                    == best_child_value::<D>(tick, st, dv1, acts, root),
            decreases nacts - k,
        {
            let ghost rest = acts.skip(k as int);
            proof {
                assert(acts.contains(acts[k as int]));
                D::law_task_applicable(tick, st, dv1, root, acts[k as int]);
            }
            let mut nd = D::clone_diff(&d1);
            let follow = D::execute(&tasks[k], tick, &self.initial_state, &mut nd, root);
            if let Some(f) = follow {
                proof {
                    D::law_follow_applicable(acts[k as int], tick, st, dv1, root);
                }
                let _ = D::execute(&f, tick, &self.initial_state, &mut nd, root);
            }
            proof {
                assert(D::diff_view(nd) == apply_task::<D>(acts[k as int], tick, st, dv1, root));
                lemma_apply_task_ok::<D>(acts[k as int], tick, st, dv1, root);
            }
            let v = D::get_current_value(tick, &self.initial_state, &nd, root);
            proof {
                assert(rest[0] == acts[k as int]);
                assert(rest.skip(1) =~= acts.skip(k as int + 1));
            }
            if v > high {
                high = v;
            }
            let idx = self.nodes.len();
            let ghost old_nodes_view = self@.nodes;
            let ghost old_tags = tags@;
            tags.push((D::display_action(&tasks[k]), idx));
            self.nodes.push(Node::new(nd, v, Some(i), Some(og), Vec::new()));
            proof {
                assert(self@.nodes =~= old_nodes_view.push(self@.nodes[n0 + k]));
                assert(self@.nodes[n0 + k] == spawned_child::<D>(
                    tick,
                    st,
                    dv1,
                    acts,
                    root,
                    i as int,
                    og,
                    k as int,
                ));
                assert(self@.nodes =~= m0.nodes + Seq::new(
                    (k + 1) as nat,
                    |j: int| spawned_child::<D>(tick, st, dv1, acts, root, i as int, og, j),
                ));
                assert(tags@ =~= Seq::new(
                    (k + 1) as nat,
                    |j: int| (D::display_spec(acts[j]), (n0 + j) as usize),
                ));
            }
            k += 1;
        }
        proof {
            assert(acts.skip(nacts as int) =~= Seq::<D::Action>::empty());
            assert(high == best_child_value::<D>(tick, st, dv1, acts, root));
        }

        // Attach the new children to the frontier node.
        let replacement = Node::new(
            self.nodes[i].diff(),
            self.nodes[i].score(),
            self.nodes[i].parent(),
            self.nodes[i].og_parent(),
            tags,
        );
        let ghost before_attach = self@.nodes;
        proof {
            assert(before_attach[i as int] == m0.nodes[i as int]);
            assert(replacement@ == (NodeModel::<D> { children: tags@, ..m0.nodes[i as int] }));
        }
        self.nodes[i] = replacement;
        proof {
            assert forall|j: int| 0 <= j < self@.nodes.len() implies self@.nodes[j]
                == before_attach.update(
                i as int,
                NodeModel::<D> { children: tags@, ..m0.nodes[i as int] },
            )[j] by {
                assert(self@.nodes[j] == self.nodes@[j]@);
            }
            assert(self@.nodes =~= before_attach.update(
                i as int,
                NodeModel::<D> { children: tags@, ..m0.nodes[i as int] },
            ));
        }

        // Raise the branch's score slot to the best new utility.
        let slot = og - 1;
        let cur = self.scores[slot];
        if high > cur {
            self.scores[slot] = high;
        }
        proof {
            assert(self@.scores =~= m0.scores.update(
                slot as int,
                max_i64(m0.scores[slot as int], high),
            ));
            let r = node_expansion::<D>(st, tick, m0.nodes, m0.scores, i as int, root);
            assert(self@.nodes =~= r.0);
            assert(self@.scores =~= r.1);
        }
    }

    /// Runs the planner: expands the tree level by level up to the configured
    /// depth, then records the candidate action of the branch whose score is
    /// greatest (ties to the lowest branch index) as the best task.
    pub fn run(&mut self)
        requires
            wf_model::<D>(old(self)@),
        ensures
            final(self)@.depth == old(self)@.depth,
            final(self)@.root_agent == old(self)@.root_agent,
            final(self)@.initial_state == old(self)@.initial_state,
            final(self)@.start_tick == old(self)@.start_tick,
            final(self)@.candidates == old(self)@.candidates,
            wf_model::<D>(final(self)@),
            (final(self)@.nodes, final(self)@.scores) == run_result::<D>(old(self)@),
            final(self)@.best_task == run_choice::<D>(old(self)@),
    {
        let ghost m0 = self@;
        let ghost st = m0.initial_state;
        let mut end_idx: usize = 1;
        let mut level: u64 = 1;
        while level <= self.depth as u64
            invariant
                1 <= level <= m0.depth as u64 + 1,
                self@.depth == m0.depth,
                self@.root_agent == m0.root_agent,
                self@.initial_state == st,
                self@.start_tick == m0.start_tick,
                self@.candidates == m0.candidates,
                self@.best_task == m0.best_task,
                self@.scores.len() == m0.scores.len(),
                m0.start_tick + m0.depth <= u64::MAX,
                arena_ok::<D>(st, m0.root_agent, self@.nodes, self@.scores),
                1 <= end_idx <= self@.nodes.len(),
                run_from::<D>(
                    st,
                    m0.start_tick,
                    self@.nodes,
                    self@.scores,
                    level as int,
                    m0.depth as int,
                    end_idx as int,
                    self@.nodes.len() as int,
                    m0.root_agent,
                ) == run_result::<D>(m0),
            decreases m0.depth as int + 1 - level as int,
        {
            let tick = self.start_tick + level;
            proof {
                assert(tick == tick_of(m0.start_tick, level as int));
            }
            let start_idx = end_idx;
            end_idx = self.nodes.len();
            let ghost nodes_lvl = self@.nodes;
            let ghost scores_lvl = self@.scores;
            let mut i = start_idx;
            while i < end_idx
                invariant
                    start_idx <= i <= end_idx,
                    1 <= start_idx,
                    end_idx <= self@.nodes.len(),
                    self@.depth == m0.depth,
                    self@.root_agent == m0.root_agent,
                    self@.initial_state == st,
                    self@.start_tick == m0.start_tick,
                    self@.candidates == m0.candidates,
                    self@.best_task == m0.best_task,
                    self@.scores.len() == m0.scores.len(),
                    arena_ok::<D>(st, m0.root_agent, self@.nodes, self@.scores),
                    expansion_range::<D>(
                        st,
                        tick,
                        self@.nodes,
                        self@.scores,
                        i as int,
                        end_idx as int,
                        m0.root_agent,
                    ) == expansion_range::<D>(
                        st,
                        tick,
                        nodes_lvl,
                        scores_lvl,
                        start_idx as int,
                        end_idx as int,
                        m0.root_agent,
                    ),
                decreases end_idx - i,
            {
                let ghost nodes_pre = self@.nodes;
                let ghost scores_pre = self@.scores;
                self.expand_node(tick, i);
                proof {
                    lemma_node_expansion_ok::<D>(
                        st,
                        tick,
                        nodes_pre,
                        scores_pre,
                        i as int,
                        m0.root_agent,
                    );
                }
                i += 1;
            }
            level += 1;
        }

        // Scan the score vector for the branch with the greatest score; ties
        // resolve to the lowest branch index.
        let ghost fin = run_result::<D>(m0);
        proof {
            assert((self@.nodes, self@.scores) == fin);
        }
        let mut best_v: i64 = i64::MIN;
        let mut best_i: usize = 0;
        let m = self.scores.len();
        let mut idx: usize = 0;
        while idx < m
            invariant
                idx <= m,
                m == self@.scores.len(),
                m > 0 ==> best_i < m,
                m == 0 ==> best_i == 0,
                self@.depth == m0.depth,
                self@.root_agent == m0.root_agent,
                self@.initial_state == st,
                self@.start_tick == m0.start_tick,
                self@.candidates == m0.candidates,
                self@.best_task == m0.best_task,
                self@.scores == fin.1,
                self@.nodes == fin.0,
                arena_ok::<D>(st, m0.root_agent, self@.nodes, self@.scores),
                m0.scores.len() == m,
                best_slot(self@.scores, idx as int, best_v, best_i as int) == selected_branch(
                    self@.scores,
                ),
            decreases m - idx,
        {
            let v = self.scores[idx];
            if v > best_v {
                best_v = v;
                best_i = idx;
            }
            idx += 1;
        }
        if self.candidates.len() == 0 {
            self.best_task = None;
        } else {
            self.best_task = Some(D::clone_action(&self.candidates[best_i]));
        }
    }
}

/// One full planning request: builds a fresh planner, runs it to `depth`, and
/// returns the chosen action — or none if the root agent has no candidate
/// actions at construction time, in which case it never fails otherwise.
pub fn plan<D: Domain>(
    root_agent: AgentId,
    initial_state: D::State,
    start_tick: u64,
    depth: u32,
) -> (r: Option<D::Action>)
    requires
        D::sane(initial_state, D::empty_diff_spec()),
        D::present(initial_state, D::empty_diff_spec(), root_agent),
        start_tick + depth <= u64::MAX,
    ensures
        r == plan_choice::<D>(root_agent, initial_state, start_tick, depth as int),
        candidates_of::<D>(root_agent, initial_state, start_tick).len() == 0 ==> r is None,
{
    let mut brain = Brain::<D>::new(root_agent, initial_state, start_tick, depth);
    proof {
        assert(run_result::<D>(brain@) == final_state::<D>(
            root_agent,
            initial_state,
            start_tick,
            depth as int,
        ));
    }
    brain.run();
    brain.best_task()
}

} // verus!
