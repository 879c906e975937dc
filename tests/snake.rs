use snake_core::components::{Direction, Position};
use snake_core::game::{tick, SimulationState};
use snake_core::grid::Grid;
use snake_core::snake::{
    growth_system, movement_input_system, resolve_direction, spawn_entity_with_segment,
    spawn_segment_system, GrowthEvent, Head, LastTailPosition, Snake,
};

fn two_players() -> SimulationState {
    SimulationState::new(10, 10, 2).unwrap()
}

fn head_of(sim: &SimulationState, player: usize) -> Position {
    sim.snakes[player].segments[0]
}

#[test]
fn entity_has_snake_head() {
    let sim = two_players();
    assert_eq!(sim.snakes.len(), 2);
}

#[test]
fn snake_starts_moviment_up() {
    let sim = two_players();
    assert_eq!(sim.snakes[0].head.direction, Direction::Up);
}

#[test]
fn snake_head_has_moved_up() {
    let mut sim = two_players();
    let p1_default_position = Position { x: 3, y: 4 };
    let p2_default_position = Position { x: 7, y: 4 };
    tick(&mut sim, &vec![Some(Direction::Up), None]);
    assert_eq!(head_of(&sim, 0), p1_default_position);
    assert_eq!(head_of(&sim, 1), p2_default_position);
    assert_eq!(sim.snakes[0].head.direction, Direction::Up);
    assert_eq!(sim.snakes[1].head.direction, Direction::Up);
}

#[test]
fn snake_head_moves_up_and_right() {
    let mut sim = two_players();
    let p1_up_position = Position { x: 3, y: 4 };
    let p2_up_position = Position { x: 7, y: 4 };
    tick(&mut sim, &vec![Some(Direction::Up), None]);
    assert_eq!(head_of(&sim, 0), p1_up_position);
    assert_eq!(head_of(&sim, 1), p2_up_position);

    let p1_up_right_position = Position { x: 4, y: 4 };
    let p2_up_right_position = Position { x: 7, y: 5 };
    tick(&mut sim, &vec![Some(Direction::Right), None]);
    assert_eq!(head_of(&sim, 0), p1_up_right_position);
    assert_eq!(sim.snakes[0].head.direction, Direction::Right);
    assert_eq!(head_of(&sim, 1), p2_up_right_position);
    assert_eq!(sim.snakes[1].head.direction, Direction::Up);
}

#[test]
fn snake_head_moves_down_and_left() {
    let mut sim = two_players();
    let down_left_position = Position { x: 2, y: 2 };
    let p2_up_position = Position { x: 7, y: 5 };
    tick(&mut sim, &vec![Some(Direction::Left), None]);
    tick(&mut sim, &vec![Some(Direction::Down), None]);
    assert_eq!(head_of(&sim, 0), down_left_position);
    assert_eq!(sim.snakes[0].head.direction, Direction::Down);
    assert_eq!(head_of(&sim, 1), p2_up_position);
    assert_eq!(sim.snakes[1].head.direction, Direction::Up);
}

#[test]
fn snake_cannot_start_moving_down() {
    let mut sim = two_players();
    let p1_down_left_position = Position { x: 3, y: 4 };
    let p2_down_left_position = Position { x: 7, y: 4 };
    tick(&mut sim, &vec![Some(Direction::Down), None]);
    assert_eq!(head_of(&sim, 0), p1_down_left_position);
    assert_eq!(head_of(&sim, 1), p2_down_left_position);
}

#[test]
fn entity_snake_has_two_segments() {
    let sim = two_players();
    let total: usize = sim.snakes.iter().map(|s| s.segments.len()).sum();
    // Four segments, 2 for each snake
    assert_eq!(total, 4);
}

#[test]
fn snake_p1_segment_has_followed_head() {
    let mut sim = two_players();
    let new_position_head_right = Position { x: 4, y: 3 };
    let new_position_segment_right = Position { x: 3, y: 3 };
    tick(&mut sim, &vec![Some(Direction::Right), None]);
    assert_eq!(head_of(&sim, 0), new_position_head_right);
    assert_eq!(sim.snakes[0].head.direction, Direction::Right);
    assert_eq!(sim.snakes[0].segments[1], new_position_segment_right);

    let new_position_head_up = Position { x: 4, y: 4 };
    let new_position_segment_up = Position { x: 4, y: 3 };
    tick(&mut sim, &vec![Some(Direction::Up), None]);
    assert_eq!(head_of(&sim, 0), new_position_head_up);
    assert_eq!(sim.snakes[0].head.direction, Direction::Up);
    assert_eq!(sim.snakes[0].segments[1], new_position_segment_up);
}

#[test]
fn reversal_is_ignored_and_other_requests_taken() {
    for current in [Direction::Left, Direction::Up, Direction::Right, Direction::Down] {
        assert_eq!(resolve_direction(current, Some(current.opposite())), current);
        assert_eq!(resolve_direction(current, None), current);
        assert_eq!(resolve_direction(current, Some(current)), current);
    }
    assert_eq!(resolve_direction(Direction::Up, Some(Direction::Left)), Direction::Left);
    assert_eq!(resolve_direction(Direction::Up, Some(Direction::Right)), Direction::Right);
    assert_eq!(resolve_direction(Direction::Left, Some(Direction::Down)), Direction::Down);
}

#[test]
fn steering_applies_requests_per_player() {
    let mut sim = two_players();
    movement_input_system(&mut sim, &vec![Some(Direction::Right), Some(Direction::Down)]);
    assert_eq!(sim.snakes[0].head.direction, Direction::Right);
    assert_eq!(sim.snakes[1].head.direction, Direction::Up);
    movement_input_system(&mut sim, &vec![Some(Direction::Left)]);
    assert_eq!(sim.snakes[0].head.direction, Direction::Right);
    assert_eq!(sim.snakes[1].head.direction, Direction::Up);
    assert_eq!(head_of(&sim, 0), Position { x: 3, y: 3 });
}

#[test]
fn one_tick_up_follows_the_leader() {
    let mut sim = SimulationState::new(10, 10, 1).unwrap();
    tick(&mut sim, &vec![Some(Direction::Up)]);
    assert_eq!(sim.snakes[0].segments, vec![Position { x: 3, y: 4 }, Position { x: 3, y: 3 }]);
    assert_eq!(sim.snakes[0].last_tail_position, LastTailPosition(Some(Position { x: 3, y: 2 })));
}

#[test]
fn advance_shifts_every_segment() {
    let mut snake = Snake {
        head: Head::default(),
        segments: vec![Position { x: 3, y: 3 }, Position { x: 3, y: 2 }, Position { x: 2, y: 2 }],
        last_tail_position: LastTailPosition::default(),
    };
    snake.advance(Position { x: 3, y: 4 });
    assert_eq!(
        snake.segments,
        vec![Position { x: 3, y: 4 }, Position { x: 3, y: 3 }, Position { x: 3, y: 2 }]
    );
    assert_eq!(snake.last_tail_position.0, Some(Position { x: 2, y: 2 }));
}

#[test]
fn starting_snakes_stand_in_their_columns() {
    let grid = Grid::new(12, 10).unwrap();
    let first = spawn_entity_with_segment(0, &grid);
    let second = spawn_entity_with_segment(1, &grid);
    assert_eq!(first.segments, vec![Position { x: 3, y: 3 }, Position { x: 3, y: 2 }]);
    assert_eq!(second.segments, vec![Position { x: 9, y: 3 }, Position { x: 9, y: 2 }]);
    assert_eq!(first.head, Head { direction: Direction::Up });
    assert_eq!(second.last_tail_position, LastTailPosition(None));
}

#[test]
fn spawn_segment_appends_at_tail() {
    let grid = Grid::new(10, 10).unwrap();
    let mut snake = spawn_entity_with_segment(0, &grid);
    spawn_segment_system(&mut snake, Position { x: 3, y: 1 });
    assert_eq!(snake.segments.len(), 3);
    assert_eq!(snake.segments[2], Position { x: 3, y: 1 });
}

#[test]
fn growth_appends_at_last_tail_and_ignores_unknown_players() {
    let mut sim = two_players();
    // Before any move no tail cell is known: a request changes nothing.
    growth_system(&mut sim, &vec![GrowthEvent { player_id: 0 }]);
    assert_eq!(sim.snakes[0].segments.len(), 2);
    tick(&mut sim, &vec![]);
    growth_system(
        &mut sim,
        &vec![GrowthEvent { player_id: 1 }, GrowthEvent { player_id: 5 }, GrowthEvent { player_id: 1 }],
    );
    assert_eq!(sim.snakes[0].segments.len(), 2);
    assert_eq!(
        sim.snakes[1].segments,
        vec![
            Position { x: 7, y: 4 },
            Position { x: 7, y: 3 },
            Position { x: 7, y: 2 },
            Position { x: 7, y: 2 },
        ]
    );
}
