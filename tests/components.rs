use snake_core::components::{Direction, GameEndEvent, Position};

#[test]
fn opposite_direction() {
    assert_eq!(Direction::Up.opposite(), Direction::Down);
    assert_eq!(Direction::Down.opposite(), Direction::Up);
    assert_eq!(Direction::Right.opposite(), Direction::Left);
    assert_eq!(Direction::Left.opposite(), Direction::Right);
}

#[test]
fn opposite_twice_is_identity_and_never_self() {
    for d in [Direction::Left, Direction::Up, Direction::Right, Direction::Down] {
        assert_eq!(d.opposite().opposite(), d);
        assert_ne!(d.opposite(), d);
    }
}

#[test]
fn game_end_event_defaults_to_game_over() {
    assert_eq!(GameEndEvent::default(), GameEndEvent::GameOver);
}

#[test]
fn positions_compare_by_value() {
    assert_eq!(Position { x: 3, y: -1 }, Position { x: 3, y: -1 });
    assert_ne!(Position { x: 3, y: -1 }, Position { x: -1, y: 3 });
}
