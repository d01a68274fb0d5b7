use rps_battle_royale::constants::CONTESTANTS;
use rps_battle_royale::domain::DisplayAction;
use rps_battle_royale::domain::RPSBattleRoyaleDomain;
use rps_battle_royale::executor_state::RPSBattleRoyaleExecutorState;
use rps_battle_royale::map::Coord;
use rps_battle_royale::map::Direction;
use rps_battle_royale::map::Grid;
use rps_battle_royale::planner::domain::Domain;
use rps_battle_royale::state::AgentId;
use rps_battle_royale::state::AgentState;
use rps_battle_royale::state::AgentType;
use rps_battle_royale::state::Diff;
use rps_battle_royale::state::GlobalState;
use rps_battle_royale::tasks::Action;
use rps_battle_royale::tasks::Move;
use rps_battle_royale::testing_factory::_create_test_state;

#[test]
fn grid_rounds_even_sides_up() {
    let grid = Grid::new(10, 10);
    assert_eq!(grid.height(), 11);
    assert_eq!(grid.width(), 11);
    let grid = Grid::new(25, 25);
    assert_eq!(grid.height(), 25);
    assert_eq!(grid.width(), 25);
    assert_eq!(grid.size(), Coord::new(25, 25));
}

#[test]
fn grid_bounds() {
    let grid = Grid::new(25, 25);
    assert!(!grid.out_of_bounds(Coord::new(0, 0)));
    assert!(!grid.out_of_bounds(Coord::new(24, 24)));
    assert!(grid.out_of_bounds(Coord::new(-1, 0)));
    assert!(grid.out_of_bounds(Coord::new(0, -1)));
    assert!(grid.out_of_bounds(Coord::new(25, 0)));
    assert!(grid.out_of_bounds(Coord::new(0, 25)));
}

#[test]
fn grid_scoring() {
    let grid = Grid::new(25, 25);
    // The center is (12, 12) and the squared corner distance is 288.
    assert_eq!(grid.longest_sq(), 288);
    assert_eq!(grid.distance_points(Coord::new(12, 12)), 288);
    assert_eq!(grid.distance_points(Coord::new(10, 10)), 280);
    assert_eq!(grid.distance_points(Coord::new(0, 0)), 0);
}

#[test]
fn manhattan_distances() {
    assert_eq!(Coord::new(0, 0).manhattan_dist(Coord::new(0, 2)), 2);
    assert_eq!(Coord::new(0, 0).manhattan_dist(Coord::new(-2, 0)), 2);
    assert_eq!(Coord::new(3, 2).manhattan_dist(Coord::new(0, 1)), 4);
}

#[test]
fn utility_values_conversions_and_position() {
    let agents = vec![(AgentType::Rock, Coord::new(0, 3))];
    let state = _create_test_state(agents);
    let diff = Diff::default();
    // Squared distance of (0,3) from (12,12) is 144 + 81 = 225.
    assert_eq!(
        RPSBattleRoyaleDomain::get_current_value(0, &state, &diff, AgentId(1)),
        3 * (288 - 225)
    );

    // A conversion is worth the squared corner distance, 288.
    let agents = vec![(
        AgentType::Rock,
        Coord::new(12, 12),
    )];
    let mut state = _create_test_state(agents);
    state.agents[0].1.conversions = 2;
    assert_eq!(
        RPSBattleRoyaleDomain::get_current_value(0, &state, &diff, AgentId(1)),
        2 * 288 + 3 * 288
    );
}

#[test]
fn visible_agents_are_near_sorted_and_exclude_self() {
    let agents = vec![
        (AgentType::Rock, Coord::new(0, 3)),
        (AgentType::Paper, Coord::new(0, 2)),
        (AgentType::Scissors, Coord::new(24, 24)),
    ];
    let state = _create_test_state(agents);
    let diff = Diff::default();
    // Agent 3 is 45 cells away by Manhattan distance, beyond the horizon of 30.
    let visible = RPSBattleRoyaleDomain::update_visible_agents(0, &state, &diff, AgentId(1));
    assert_eq!(visible, vec![AgentId(2)]);
    let visible = RPSBattleRoyaleDomain::update_visible_agents(0, &state, &diff, AgentId(2));
    assert_eq!(visible, vec![AgentId(1)]);
}

#[test]
fn enumerated_tasks_follow_canonical_order() {
    let agents = vec![(AgentType::Rock, Coord::new(0, 0))];
    let state = _create_test_state(agents);
    let diff = Diff::default();
    // In the corner, only right and down stay on the grid.
    let tasks = RPSBattleRoyaleDomain::get_tasks(0, &state, &diff, AgentId(1));
    assert_eq!(
        tasks,
        vec![
            Action::Move(Move(Direction::Right)),
            Action::Move(Move(Direction::Down)),
        ]
    );
}

#[test]
fn initial_world_spawns_distinct_thirds() {
    let executor = RPSBattleRoyaleExecutorState::default();
    let state = executor.create_initial_state();
    assert_eq!(state.agents.len(), CONTESTANTS as usize);
    let grid = state.map;
    for (i, (id, st)) in state.agents.iter().enumerate() {
        assert_eq!(*id, AgentId(i as u32));
        assert_eq!(st.conversions, 0);
        assert!(!grid.out_of_bounds(st.location));
        let expected = if (i as u32) < CONTESTANTS / 3 {
            AgentType::Rock
        } else if (i as u32) < 2 * (CONTESTANTS / 3) {
            AgentType::Paper
        } else {
            AgentType::Scissors
        };
        assert_eq!(st.ty, expected);
    }
    for i in 0..state.agents.len() {
        for j in 0..i {
            assert_ne!(state.agents[i].1.location, state.agents[j].1.location);
        }
    }
}

#[test]
fn executor_counts_and_termination() {
    let mut executor = RPSBattleRoyaleExecutorState::default();
    assert_eq!(executor.rock_count, CONTESTANTS / 3);
    assert_eq!(executor.paper_count, CONTESTANTS / 3);
    assert_eq!(
        executor.scissors_count,
        CONTESTANTS - 2 * (CONTESTANTS / 3)
    );
    assert_eq!(executor.mcts_visits.len(), CONTESTANTS as usize);

    let agents = vec![
        (AgentType::Rock, Coord::new(0, 3)),
        (AgentType::Paper, Coord::new(0, 2)),
        (AgentType::Scissors, Coord::new(1, 3)),
    ];
    let state = _create_test_state(agents);
    executor.update_counts(&state);
    assert_eq!(executor.rock_count, 1);
    assert_eq!(executor.paper_count, 1);
    assert_eq!(executor.scissors_count, 1);
    assert!(executor.keep_execution(0, &state));

    // A battle won by rock alone stops the execution.
    let mut rocks = Vec::new();
    for _ in 0..CONTESTANTS {
        rocks.push((AgentType::Rock, Coord::new(0, 0)));
    }
    let mut won = _create_test_state(rocks);
    for k in 0..won.agents.len() {
        won.agents[k].1.location = Coord::new(k as i32, 0);
    }
    executor.update_counts(&won);
    assert_eq!(executor.rock_count, CONTESTANTS);
    assert_eq!(executor.paper_count, 0);
    assert!(!executor.keep_execution(0, &won));
}

#[test]
fn task_schedule_staggers_by_identifier() {
    let executor = RPSBattleRoyaleExecutorState::default();
    let agents = vec![
        (AgentType::Rock, Coord::new(0, 3)),
        (AgentType::Paper, Coord::new(0, 2)),
        (AgentType::Scissors, Coord::new(1, 3)),
    ];
    let state = _create_test_state(agents);
    let schedule = executor.init_task_schedule(&state);
    assert_eq!(
        schedule,
        vec![(AgentId(1), 1), (AgentId(2), 2), (AgentId(3), 3)]
    );
}

#[test]
fn visit_recording_saturates_and_ignores_unknown_agents() {
    let mut executor = RPSBattleRoyaleExecutorState::default();
    executor.record_visits(AgentId(2), 7);
    assert_eq!(executor.mcts_visits[2], 7);
    executor.record_visits(AgentId(2), u32::MAX);
    assert_eq!(executor.mcts_visits[2], u32::MAX);
    executor.record_visits(AgentId(999), 5);
    assert_eq!(executor.mcts_visits.len(), CONTESTANTS as usize);
}

#[test]
fn derive_local_state_copies_the_snapshot() {
    let agents = vec![(AgentType::Rock, Coord::new(0, 3))];
    let state = _create_test_state(agents);
    let local = RPSBattleRoyaleDomain::derive_local_state(&state, AgentId(1));
    assert_eq!(local.agents, state.agents);
    assert_eq!(local.map, state.map);
}

#[test]
fn default_display_action_is_idle() {
    assert_eq!(DisplayAction::default(), DisplayAction::Idle);
    assert_eq!(
        RPSBattleRoyaleDomain::display_action_task_planning(),
        DisplayAction::Plan
    );
}

#[test]
fn global_state_can_be_rebuilt_by_hand() {
    let map = Grid::new(25, 25);
    let agents = vec![(
        AgentId(4),
        AgentState { ty: AgentType::Paper, location: Coord::new(3, 3), conversions: 0 },
    )];
    let state = GlobalState { map, agents };
    let diff = Diff::default();
    assert!(diff.agents.is_empty());
    assert_eq!(
        RPSBattleRoyaleDomain::get_current_value(0, &state, &diff, AgentId(4)),
        3 * (288 - (81 + 81))
    );
}
