use rps_battle_royale::domain::RPSBattleRoyaleDomain;
use rps_battle_royale::map::Coord;
use rps_battle_royale::map::Direction;
use rps_battle_royale::state::AgentId;
use rps_battle_royale::state::AgentState;
use rps_battle_royale::state::AgentType;
use rps_battle_royale::state::Diff;
use rps_battle_royale::state::GlobalState;
use rps_battle_royale::state::StateDiffRef;
use rps_battle_royale::tasks::Convert;
use rps_battle_royale::tasks::Move;
use rps_battle_royale::testing_factory::_create_test_state;

fn create_state() -> GlobalState {
    let rock = (AgentType::Rock, Coord::new(0, 3));
    let paper = (AgentType::Paper, Coord::new(0, 2));
    let scissors = (AgentType::Scissors, Coord::new(1, 3));

    let agents = vec![rock, paper, scissors];
    _create_test_state(agents)
}

fn find(state: &GlobalState, id: u32) -> AgentState {
    for (agent, st) in state.agents.iter() {
        if agent.0 == id {
            return *st;
        }
    }
    panic!("agent not found");
}

#[test]
fn test_out_of_bounds() {
    let state = create_state();
    let diff = Diff::default();

    let move_task = Move(Direction::Left);
    assert_eq!(move_task.is_valid(0, &state, &diff, AgentId(1)), false);
}

#[test]
fn test_valid_move() {
    let mut state = create_state();
    let mut diff = Diff::default();

    let move_task = Move(Direction::Down);
    assert_eq!(move_task.is_valid(0, &state, &diff, AgentId(1)), true);

    move_task.execute(0, &state, &mut diff, AgentId(1));
    RPSBattleRoyaleDomain::apply(&mut state, &diff);

    println!("\n{:?}\n", &state);
    assert_eq!(find(&state, 1).location, Coord::new(0, 4));
    assert_eq!(find(&state, 1).ty, AgentType::Rock);
    assert_eq!(find(&state, 1).conversions, 0);
}

#[test]
fn test_valid_positive_conversion() {
    let mut state = create_state();
    let mut diff = Diff::default();

    let move_task = Move(Direction::Right);
    assert_eq!(move_task.is_valid(0, &state, &diff, AgentId(1)), true);

    move_task.execute(0, &state, &mut diff, AgentId(1));
    RPSBattleRoyaleDomain::apply(&mut state, &diff);

    println!("\n{:?}\n", &state);
    // The rock stepped onto the scissors, its prey: the scissors became a rock
    // with its counter reset, and the mover gained a point and took the cell.
    assert_eq!(find(&state, 3).ty, AgentType::Rock);
    assert_eq!(find(&state, 3).conversions, -1);
    assert_eq!(find(&state, 3).location, Coord::new(1, 3));
    assert_eq!(find(&state, 1).ty, AgentType::Rock);
    assert_eq!(find(&state, 1).conversions, 1);
    assert_eq!(find(&state, 1).location, Coord::new(1, 3));
}

#[test]
fn test_valid_negative_conversion() {
    let mut state = create_state();
    let mut diff = Diff::default();

    let move_task = Move(Direction::Up);
    assert_eq!(move_task.is_valid(0, &state, &diff, AgentId(1)), true);

    move_task.execute(0, &state, &mut diff, AgentId(1));
    RPSBattleRoyaleDomain::apply(&mut state, &diff);

    println!("\n{:?}\n", &state);
    // The rock stepped onto the paper, its predator: the paper took the point,
    // and the mover became a paper with its counter reset.
    assert_eq!(find(&state, 2).ty, AgentType::Paper);
    assert_eq!(find(&state, 2).conversions, 1);
    assert_eq!(find(&state, 2).location, Coord::new(0, 2));
    assert_eq!(find(&state, 1).ty, AgentType::Paper);
    assert_eq!(find(&state, 1).conversions, -1);
    assert_eq!(find(&state, 1).location, Coord::new(0, 2));
}

#[test]
fn move_onto_same_type_converts_nobody() {
    let agents = vec![
        (AgentType::Rock, Coord::new(4, 4)),
        (AgentType::Rock, Coord::new(5, 4)),
    ];
    let mut state = _create_test_state(agents);
    let mut diff = Diff::default();

    let move_task = Move(Direction::Right);
    move_task.execute(0, &state, &mut diff, AgentId(1));
    RPSBattleRoyaleDomain::apply(&mut state, &diff);

    assert_eq!(find(&state, 1).ty, AgentType::Rock);
    assert_eq!(find(&state, 1).conversions, 0);
    assert_eq!(find(&state, 1).location, Coord::new(5, 4));
    assert_eq!(find(&state, 2).ty, AgentType::Rock);
    assert_eq!(find(&state, 2).conversions, 0);
}

#[test]
fn convert_task_converts_target() {
    let mut state = create_state();
    let mut diff = Diff::default();

    let convert = Convert(AgentId(2));
    assert_eq!(convert.is_valid(0, &state, &diff, AgentId(1)), true);
    assert_eq!(convert.duration(0), 1);

    convert.execute(0, &state, &mut diff, AgentId(1));
    RPSBattleRoyaleDomain::apply(&mut state, &diff);

    // The paper became a rock with its counter reset; the converter scored.
    assert_eq!(find(&state, 2).ty, AgentType::Rock);
    assert_eq!(find(&state, 2).conversions, -1);
    assert_eq!(find(&state, 2).location, Coord::new(0, 2));
    assert_eq!(find(&state, 1).conversions, 1);
}

#[test]
fn diff_overrides_shadow_initial_lookups() {
    let state = create_state();
    let mut diff = Diff::default();

    // Override the rock's location through a real move.
    let move_task = Move(Direction::Down);
    move_task.execute(0, &state, &mut diff, AgentId(1));

    let view = StateDiffRef::new(&state, &diff);
    // The composed view sees the override, not the initial record.
    assert_eq!(view.get_agent(AgentId(1)).unwrap().location, Coord::new(0, 4));
    // Nobody occupies the vacated cell any more.
    assert!(view.get_agent_at(Coord::new(0, 3)).is_none());
    // The occupied cell reports the moved agent.
    let (id, st) = view.get_agent_at(Coord::new(0, 4)).unwrap();
    assert_eq!(id, AgentId(1));
    assert_eq!(st.location, Coord::new(0, 4));
    // Untouched agents are still served from the initial snapshot.
    assert_eq!(view.agent_type_at_location(Coord::new(0, 2)), Some(AgentType::Paper));
    assert_eq!(view.agent_type_at_location(Coord::new(9, 9)), None);
    assert_eq!(view.is_location_valid(Coord::new(-1, 0)), false);
    assert_eq!(view.is_location_valid(Coord::new(0, 0)), true);
    assert_eq!(view.map_height(), 25);
    assert_eq!(view.map_width(), 25);
    assert_eq!(view.list_agents(), vec![AgentId(1), AgentId(2), AgentId(3)]);
}
