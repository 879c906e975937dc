use vstd::prelude::*;

use crate::components::{Direction, Position};

verus! {

/// Width of the default board, in cells.
pub const GRID_WIDTH: u16 = 10;

/// Height of the default board, in cells.
pub const GRID_HEIGHT: u16 = 10;

/// Longest side a board may have: every cell of it, and every cell one step
/// past its edges, has coordinates that fit in an `i16`.
pub const MAX_SIDE: u16 = 32767;

/// The bounds of the board: cells `(x, y)` with `0 <= x < width` and
/// `0 <= y < height`.
#[derive(Clone, Copy, Debug, PartialEq, Eq, Structural)]
pub struct Grid {
    pub width: u16,
    pub height: u16,
}

/// The cell one step away from `p` in direction `d`: Up adds one to `y`, Down
/// takes one from it, Right adds one to `x`, Left takes one from it.
pub open spec fn step_from(p: Position, d: Direction) -> (int, int) {
    match d {
        Direction::Left => (p.x - 1, p.y as int),
        Direction::Right => (p.x + 1, p.y as int),
        Direction::Up => (p.x as int, p.y + 1),
        Direction::Down => (p.x as int, p.y - 1),
    }
}

impl Grid {
    /// Both sides are at least one cell and at most `MAX_SIDE` cells long.
    pub open spec fn wf(self) -> bool {
        &&& 1 <= self.width <= MAX_SIDE
        &&& 1 <= self.height <= MAX_SIDE
    }

    /// Whether the cell `(x, y)` lies on the board.
    pub open spec fn holds(self, x: int, y: int) -> bool {
        &&& 0 <= x < self.width
        &&& 0 <= y < self.height
    }

    /// A board of the given size, or `None` when a side is zero or longer
    /// than `MAX_SIDE`.
    pub fn new(width: u16, height: u16) -> (r: Option<Grid>)
        ensures
            r matches Some(g) ==> g.wf() && g.width == width && g.height == height,
            r is None <==> !(1 <= width <= MAX_SIDE && 1 <= height <= MAX_SIDE),
    {
        if 1 <= width && width <= MAX_SIDE && 1 <= height && height <= MAX_SIDE {
            Some(Grid { width, height })
        } else {
            None
        }
    }

    /// Whether `p` lies on the board.
    pub fn contains(&self, p: Position) -> (r: bool)
        ensures
            r == self.holds(p.x as int, p.y as int),
    {
        p.x >= 0 && p.y >= 0 && (p.x as u16) < self.width && (p.y as u16) < self.height
    }

    /// The cell one step from the on-board cell `p` in direction `d`. It may
    /// lie just outside the board.
    pub fn neighbor(&self, p: Position, d: Direction) -> (r: Position)
        requires
            self.wf(),
            self.holds(p.x as int, p.y as int),
        ensures
            (r.x as int, r.y as int) == step_from(p, d),
    {
        match d {
            Direction::Left => Position { x: p.x - 1, y: p.y },
            Direction::Right => Position { x: p.x + 1, y: p.y },
            Direction::Up => Position { x: p.x, y: p.y + 1 },
            Direction::Down => Position { x: p.x, y: p.y - 1 },
        }
    }
}

} // verus!
