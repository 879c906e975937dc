use snake_core::components::{Direction, Position};
use snake_core::grid::{Grid, GRID_HEIGHT, GRID_WIDTH, MAX_SIDE};

#[test]
fn default_board_is_ten_by_ten() {
    assert_eq!(GRID_WIDTH, 10);
    assert_eq!(GRID_HEIGHT, 10);
}

#[test]
fn grid_rejects_empty_and_oversized_sides() {
    assert!(Grid::new(0, 5).is_none());
    assert!(Grid::new(5, 0).is_none());
    assert!(Grid::new(MAX_SIDE + 1, 5).is_none());
    assert_eq!(Grid::new(MAX_SIDE, 1), Some(Grid { width: MAX_SIDE, height: 1 }));
}

#[test]
fn grid_contains_only_cells_inside() {
    let g = Grid::new(10, 10).unwrap();
    assert!(g.contains(Position { x: 0, y: 0 }));
    assert!(g.contains(Position { x: 9, y: 9 }));
    assert!(!g.contains(Position { x: 10, y: 3 }));
    assert!(!g.contains(Position { x: 3, y: 10 }));
    assert!(!g.contains(Position { x: -1, y: 3 }));
    assert!(!g.contains(Position { x: 3, y: -1 }));
}

#[test]
fn neighbor_steps_one_cell() {
    let g = Grid::new(10, 10).unwrap();
    let p = Position { x: 3, y: 3 };
    assert_eq!(g.neighbor(p, Direction::Up), Position { x: 3, y: 4 });
    assert_eq!(g.neighbor(p, Direction::Down), Position { x: 3, y: 2 });
    assert_eq!(g.neighbor(p, Direction::Right), Position { x: 4, y: 3 });
    assert_eq!(g.neighbor(p, Direction::Left), Position { x: 2, y: 3 });
    assert_eq!(g.neighbor(Position { x: 0, y: 3 }, Direction::Left), Position { x: -1, y: 3 });
}
