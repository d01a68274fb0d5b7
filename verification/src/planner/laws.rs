//! Laws of the planner, proved once and for all from the run model: what a
//! depth-zero run chooses, that recorded branch scores never decrease as the
//! tree deepens, that the number of top-level branches never changes, and that
//! planning is deterministic.

use vstd::prelude::*;

use super::brain::arena_ok;
use super::brain::lemma_expansion_range_ok;
use super::brain::lemma_run_from_ok;
use super::domain::Domain;
use super::model::apply_task;
use super::model::best_slot;
use super::model::candidates_of;
use super::model::expansion_range;
use super::model::final_state;
use super::model::initial_child;
use super::model::initial_nodes;
use super::model::initial_scores;
use super::model::lemma_apply_task_ok;
use super::model::plan_choice;
use super::model::run_from;
use super::model::selected_branch;
use super::model::tick_of;
use crate::state::AgentId;

verus! {

proof fn lemma_best_slot_props(scores: Seq<i64>, i: int, bv: i64, bi: int)
    requires
        0 < scores.len(),
        0 <= i <= scores.len(),
        (i == 0 && bv == i64::MIN && bi == 0) || (0 <= bi < i && bv == scores[bi] && (forall|
            j: int,
        | 0 <= j < bi ==> scores[j] < bv) && (forall|j: int| bi <= j < i ==> scores[j] <= bv)),
    ensures
        0 <= best_slot(scores, i, bv, bi) < scores.len(),
        forall|j: int|
            0 <= j < scores.len() ==> #[trigger] scores[j] <= scores[best_slot(scores, i, bv, bi)],
        forall|j: int|
            0 <= j < best_slot(scores, i, bv, bi) ==> #[trigger] scores[j] < scores[best_slot(
                scores,
                i,
                bv,
                bi,
            )],
    decreases scores.len() - i,
{
    if i < scores.len() {
        if scores[i] > bv {
            lemma_best_slot_props(scores, i + 1, scores[i], i);
        } else {
            lemma_best_slot_props(scores, i + 1, bv, bi);
        }
    }
}

/// The selector's choice: the first index holding the greatest score.
pub proof fn lemma_selected_branch_props(scores: Seq<i64>)
    requires
        scores.len() > 0,
    ensures
        0 <= selected_branch(scores) < scores.len(),
        forall|j: int| 0 <= j < scores.len() ==> #[trigger] scores[j] <= scores[selected_branch(scores)],
        forall|j: int| 0 <= j < selected_branch(scores) ==> #[trigger] scores[j] < scores[selected_branch(scores)],
{
    lemma_best_slot_props(scores, 0, i64::MIN, 0);
}

/// The freshly constructed tree satisfies the arena invariant: one branch per
/// candidate action, every diff well formed, the root agent present in all.
pub proof fn lemma_initial_ok<D: Domain>(root: AgentId, s: D::State, t0: u64)
    requires
        D::sane(s, D::empty_diff_spec()),
        D::present(s, D::empty_diff_spec(), root),
        candidates_of::<D>(root, s, t0).len() <= usize::MAX,
    ensures
        initial_nodes::<D>(root, s, t0).len() == candidates_of::<D>(root, s, t0).len() + 1,
        initial_scores::<D>(root, s, t0).len() == candidates_of::<D>(root, s, t0).len(),
        arena_ok::<D>(s, root, initial_nodes::<D>(root, s, t0), initial_scores::<D>(root, s, t0)),
{
    let cands = candidates_of::<D>(root, s, t0);
    let nodes = initial_nodes::<D>(root, s, t0);
    assert forall|i: int| 0 <= i < nodes.len() implies D::sane(s, #[trigger] nodes[i].diff)
        && D::present(s, nodes[i].diff, root) by {
        if i >= 1 {
            assert(nodes[i] == initial_child::<D>(root, s, t0, i - 1));
            assert(cands.contains(cands[i - 1]));
            D::law_task_applicable(t0, s, D::empty_diff_spec(), root, cands[i - 1]);
            lemma_apply_task_ok::<D>(cands[i - 1], t0, s, D::empty_diff_spec(), root);
        }
    }
    assert forall|i: int| 1 <= i < nodes.len() implies (#[trigger] nodes[i].og_parent) is Some && 1
        <= nodes[i].og_parent.unwrap() <= initial_scores::<D>(root, s, t0).len() by {
        assert(nodes[i] == initial_child::<D>(root, s, t0, i - 1));
    }
}

/// With depth zero, the chosen action is the candidate whose utility at the
/// start tick is greatest, the first such candidate if several tie — so a
/// candidate with the strictly greatest utility is always the one chosen — and
/// none at all if the root agent has no candidates.
pub proof fn lemma_depth_zero_choice<D: Domain>(root: AgentId, s: D::State, t0: u64)
    requires
        D::sane(s, D::empty_diff_spec()),
        D::present(s, D::empty_diff_spec(), root),
        candidates_of::<D>(root, s, t0).len() <= usize::MAX,
    ensures
        final_state::<D>(root, s, t0, 0).1 == initial_scores::<D>(root, s, t0),
        forall|j: int|
            0 <= j < candidates_of::<D>(root, s, t0).len() ==> initial_scores::<D>(root, s, t0)[j]
                == D::value_spec(
                t0,
                s,
                apply_task::<D>(
                    candidates_of::<D>(root, s, t0)[j],
                    t0,
                    s,
                    D::empty_diff_spec(),
                    root,
                ),
                root,
            ),
        candidates_of::<D>(root, s, t0).len() == 0 ==> plan_choice::<D>(root, s, t0, 0) is None,
        candidates_of::<D>(root, s, t0).len() > 0 ==> {
            let cands = candidates_of::<D>(root, s, t0);
            let scores = initial_scores::<D>(root, s, t0);
            let k = selected_branch(scores);
            &&& plan_choice::<D>(root, s, t0, 0) == Some(cands[k])
            &&& 0 <= k < cands.len()
            &&& forall|j: int| 0 <= j < cands.len() ==> scores[j] <= scores[k]
            &&& forall|j: int| 0 <= j < k ==> scores[j] < scores[k]
        },
{
    let cands = candidates_of::<D>(root, s, t0);
    let scores = initial_scores::<D>(root, s, t0);
    lemma_initial_ok::<D>(root, s, t0);
    assert(final_state::<D>(root, s, t0, 0).1 == scores);
    if cands.len() > 0 {
        lemma_selected_branch_props(scores);
    }
}

/// Running to depth `depth + 1` never records a lower score than running to
/// depth `depth`, branch by branch.
proof fn lemma_run_from_monotone<D: Domain>(
    s: D::State,
    t0: u64,
    nodes: Seq<super::node::NodeModel<D>>,
    scores: Seq<i64>,
    level: int,
    depth: int,
    start: int,
    end: int,
    root: AgentId,
)
    requires
        arena_ok::<D>(s, root, nodes, scores),
        1 <= start <= end <= nodes.len(),
        1 <= level,
    ensures
        run_from::<D>(s, t0, nodes, scores, level, depth + 1, start, end, root).1.len()
            == scores.len(),
        run_from::<D>(s, t0, nodes, scores, level, depth, start, end, root).1.len()
            == scores.len(),
        forall|j: int|
            0 <= j < scores.len() ==> run_from::<D>(
                s,
                t0,
                nodes,
                scores,
                level,
                depth + 1,
                start,
                end,
                root,
            ).1[j] >= run_from::<D>(s, t0, nodes, scores, level, depth, start, end, root).1[j],
    decreases depth + 2 - level,
{
    if level > depth + 1 {
        // Both runs are over.
    } else if level == depth + 1 {
        // The deeper run performs exactly one more level.
        lemma_expansion_range_ok::<D>(s, tick_of(t0, level), nodes, scores, start, end, root);
        let (n2, s2) = expansion_range::<D>(s, tick_of(t0, level), nodes, scores, start, end, root);
        lemma_run_from_ok::<D>(s, t0, n2, s2, level + 1, depth + 1, end, n2.len() as int, root);
    } else {
        // Both runs perform the same level first.
        lemma_expansion_range_ok::<D>(s, tick_of(t0, level), nodes, scores, start, end, root);
        let (n2, s2) = expansion_range::<D>(s, tick_of(t0, level), nodes, scores, start, end, root);
        lemma_run_from_monotone::<D>(s, t0, n2, s2, level + 1, depth, end, n2.len() as int, root);
    }
}

/// Score monotonicity: for every branch, the score recorded after `depth + 1`
/// levels is at least the score recorded after `depth` levels.
pub proof fn lemma_score_monotone<D: Domain>(root: AgentId, s: D::State, t0: u64, depth: int)
    requires
        D::sane(s, D::empty_diff_spec()),
        D::present(s, D::empty_diff_spec(), root),
        candidates_of::<D>(root, s, t0).len() <= usize::MAX,
        depth >= 0,
    ensures
        final_state::<D>(root, s, t0, depth).1.len() == candidates_of::<D>(root, s, t0).len(),
        final_state::<D>(root, s, t0, depth + 1).1.len() == candidates_of::<D>(root, s, t0).len(),
        forall|j: int|
            0 <= j < candidates_of::<D>(root, s, t0).len() ==> final_state::<D>(
                root,
                s,
                t0,
                depth + 1,
            ).1[j] >= final_state::<D>(root, s, t0, depth).1[j],
{
    lemma_initial_ok::<D>(root, s, t0);
    lemma_run_from_monotone::<D>(
        s,
        t0,
        initial_nodes::<D>(root, s, t0),
        initial_scores::<D>(root, s, t0),
        1,
        depth,
        1,
        initial_nodes::<D>(root, s, t0).len() as int,
        root,
    );
}

/// Branch count invariance: the root node keeps exactly one child per
/// candidate action enumerated at construction, and the score vector keeps
/// exactly one slot per branch, whatever the depth of the run.
pub proof fn lemma_branch_count<D: Domain>(root: AgentId, s: D::State, t0: u64, depth: int)
    requires
        D::sane(s, D::empty_diff_spec()),
        D::present(s, D::empty_diff_spec(), root),
        candidates_of::<D>(root, s, t0).len() <= usize::MAX,
    ensures
        final_state::<D>(root, s, t0, depth).0[0] == initial_nodes::<D>(root, s, t0)[0],
        final_state::<D>(root, s, t0, depth).0[0].children.len() == candidates_of::<D>(
            root,
            s,
            t0,
        ).len(),
        final_state::<D>(root, s, t0, depth).1.len() == candidates_of::<D>(root, s, t0).len(),
{
    lemma_initial_ok::<D>(root, s, t0);
    lemma_run_from_ok::<D>(
        s,
        t0,
        initial_nodes::<D>(root, s, t0),
        initial_scores::<D>(root, s, t0),
        1,
        depth,
        1,
        initial_nodes::<D>(root, s, t0).len() as int,
        root,
    );
}

/// Determinism: the chosen action is a mathematical function of the root
/// agent, the initial state, the start tick and the depth alone, so two plans
/// over identical inputs choose identically.  (The executable entry point is
/// bound to `plan_choice` by its contract.)
pub proof fn lemma_plan_deterministic<D: Domain>(
    root1: AgentId,
    s1: D::State,
    t01: u64,
    depth1: int,
    root2: AgentId,
    s2: D::State,
    t02: u64,
    depth2: int,
)
    requires
        root1 == root2,
        s1 == s2,
        t01 == t02,
        depth1 == depth2,
    ensures
        plan_choice::<D>(root1, s1, t01, depth1) == plan_choice::<D>(root2, s2, t02, depth2),
{
}

} // verus!
