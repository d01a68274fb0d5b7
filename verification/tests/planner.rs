use rps_battle_royale::domain::RPSBattleRoyaleDomain;
use rps_battle_royale::map::Coord;
use rps_battle_royale::map::Direction;
use rps_battle_royale::map::Grid;
use rps_battle_royale::planner::brain::plan;
use rps_battle_royale::planner::brain::Brain;
use rps_battle_royale::state::AgentId;
use rps_battle_royale::state::AgentState;
use rps_battle_royale::state::AgentType;
use rps_battle_royale::state::GlobalState;
use rps_battle_royale::tasks::Action;
use rps_battle_royale::tasks::Move;
use rps_battle_royale::testing_factory::_create_test_state;

fn create_brain() -> Brain<RPSBattleRoyaleDomain> {
    let agent_info = vec![
        (AgentType::Rock, Coord::new(10, 10)),
        (AgentType::Scissors, Coord::new(10, 0)),
    ];
    let root_agent = AgentId(1);
    let start_tick = 0;
    let depth = 1;
    let initial_state = _create_test_state(agent_info);
    let brain: Brain<RPSBattleRoyaleDomain> = Brain::new(root_agent, initial_state, start_tick, depth);
    brain
}

#[test]
fn test_brain_creation() {
    let brain: Brain<RPSBattleRoyaleDomain> = create_brain();

    // try and get children
    let root_node = brain.node(0);

    let children = root_node.children().clone();
    let child_1_idx = children[0].1;
    let child_2_idx = children[1].1;
    let child_3_idx = children[2].1;

    let child_1 = brain.node(child_1_idx);
    let child_2 = brain.node(child_2_idx);
    let child_3 = brain.node(child_3_idx);

    println!(
        "\nRoot node children:\n\n{:?}\n\n{:?}\n\n{:?}",
        (child_1.diff(), child_1.score(), child_1.parent(), child_1.og_parent()),
        (child_2.diff(), child_2.score(), child_2.parent(), child_2.og_parent()),
        (child_3.diff(), child_3.score(), child_3.parent(), child_3.og_parent()),
    );
}

#[test]
fn think() {
    let mut brain = create_brain();

    brain.run();

    println!("best task: {:?}", brain.best_task());
    println!("scores: {:?}", brain.scores());
}

#[test]
fn two_agent_scenario_depth_one() {
    // Agent A (rock) at (10,10), agent B (scissors) at (10,0), depth 1, on the
    // 25x25 grid whose scoring center is (12,12).
    let mut brain = create_brain();

    // Construction enumerates A's four directional moves as four branches, in
    // the order left, up, right, down, and scores each branch with the
    // positional utility of its resulting cell.
    assert_eq!(brain.node_count(), 5);
    assert_eq!(brain.node(0).children().len(), 4);
    assert_eq!(brain.scores().clone(), vec![825, 825, 849, 849]);

    brain.run();

    // B is ten cells away on one axis: no capture on any branch.  Each branch
    // score rises to the best positional utility reachable in one more step.
    assert_eq!(brain.scores().clone(), vec![840, 840, 858, 858]);
    // The tie between right and down resolves to the lower branch index:
    // right, the direction that moves A toward the scoring center.
    assert_eq!(
        brain.best_task(),
        Some(Action::Move(Move(Direction::Right)))
    );
    // The four top-level branches are still the four candidates.
    assert_eq!(brain.node(0).children().len(), 4);
    assert_eq!(brain.scores().len(), 4);
    // Each of the four frontier nodes spawned four children.
    assert_eq!(brain.node_count(), 21);
}

#[test]
fn depth_zero_picks_best_immediate_utility() {
    let agent_info = vec![
        (AgentType::Rock, Coord::new(10, 10)),
        (AgentType::Scissors, Coord::new(10, 0)),
    ];
    let initial_state = _create_test_state(agent_info);
    let mut brain: Brain<RPSBattleRoyaleDomain> = Brain::new(AgentId(1), initial_state, 0, 0);

    brain.run();

    // Immediate utilities are [825, 825, 849, 849]; the first greatest is the
    // move right, toward the center.
    assert_eq!(brain.scores().clone(), vec![825, 825, 849, 849]);
    assert_eq!(
        brain.best_task(),
        Some(Action::Move(Move(Direction::Right)))
    );
}

#[test]
fn scores_never_decrease_with_depth() {
    let agent_info = vec![
        (AgentType::Rock, Coord::new(10, 10)),
        (AgentType::Scissors, Coord::new(10, 0)),
    ];

    let mut shallow: Brain<RPSBattleRoyaleDomain> =
        Brain::new(AgentId(1), _create_test_state(agent_info.clone()), 0, 1);
    shallow.run();
    let mut deep: Brain<RPSBattleRoyaleDomain> =
        Brain::new(AgentId(1), _create_test_state(agent_info), 0, 2);
    deep.run();

    assert_eq!(shallow.scores().len(), deep.scores().len());
    for k in 0..shallow.scores().len() {
        assert!(deep.scores()[k] >= shallow.scores()[k]);
    }
}

#[test]
fn plan_is_deterministic() {
    let agent_info = vec![
        (AgentType::Rock, Coord::new(10, 10)),
        (AgentType::Scissors, Coord::new(10, 0)),
    ];
    let first = plan::<RPSBattleRoyaleDomain>(AgentId(1), _create_test_state(agent_info.clone()), 0, 3);
    let second = plan::<RPSBattleRoyaleDomain>(AgentId(1), _create_test_state(agent_info), 0, 3);
    assert_eq!(first, second);
    assert!(first.is_some());
}

#[test]
fn no_candidate_actions_chooses_nothing() {
    // On a one-cell grid every move leaves the grid, so the root agent has no
    // candidate actions at all; planning chooses nothing and does not fail.
    let map = Grid::new(1, 1);
    let agents = vec![(
        AgentId(1),
        AgentState { ty: AgentType::Rock, location: Coord::new(0, 0), conversions: 0 },
    )];
    let state = GlobalState { map, agents };
    let chosen = plan::<RPSBattleRoyaleDomain>(AgentId(1), state, 0, 2);
    assert_eq!(chosen, None);

    let map = Grid::new(1, 1);
    let agents = vec![(
        AgentId(1),
        AgentState { ty: AgentType::Rock, location: Coord::new(0, 0), conversions: 0 },
    )];
    let state = GlobalState { map, agents };
    let mut brain: Brain<RPSBattleRoyaleDomain> = Brain::new(AgentId(1), state, 0, 2);
    assert_eq!(brain.node_count(), 1);
    brain.run();
    assert_eq!(brain.best_task(), None);
}
