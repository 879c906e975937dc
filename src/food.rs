use vstd::prelude::*;

use crate::components::Position;
use crate::game::{occupied, SimulationState, SimulationView};
use crate::grid::Grid;

verus! {

/// The single piece of food on the board.
#[derive(Clone, Copy, Debug, PartialEq, Eq, Structural)]
pub struct Food {
    pub position: Position,
}

/// Relies on `rand::random`, here for `u16`: a value drawn from the thread's
/// random generator. Nothing is promised about which value comes out.
pub assume_specification<T>[ rand::random::<T> ]() -> (r: T)
    where
        rand::distributions::Standard: rand::distributions::Distribution<T>,
;

/// The cell that the draws `rx` and `ry` pick: `rx` modulo the width and `ry`
/// modulo the height.
pub open spec fn drawn_cell(g: Grid, rx: u16, ry: u16) -> Position {
    Position { x: (rx % g.width) as i16, y: (ry % g.height) as i16 }
}

/// Puts the food on the cell that `rx` and `ry` pick, provided there is no
/// food yet and no snake holds that cell. Returns whether it did.
pub fn spawn_food_from_draw(sim: &mut SimulationState, rx: u16, ry: u16) -> (placed: bool)
    requires
        old(sim)@.wf(),
    ensures
        placed == (old(sim)@.food is None && !occupied(
            old(sim)@.snakes,
            drawn_cell(old(sim)@.grid, rx, ry).x as int,
            drawn_cell(old(sim)@.grid, rx, ry).y as int,
        )),
        placed ==> final(sim)@ == (SimulationView {
            food: Some(drawn_cell(old(sim)@.grid, rx, ry)),
            ..old(sim)@
        }),
        !placed ==> final(sim)@ == old(sim)@,
        final(sim)@.wf(),
        old(sim)@.food_clear() ==> final(sim)@.food_clear(),
{
    if sim.food.is_some() {
        return false;
    }
    let cell = Position {
        x: (rx % sim.grid.width) as i16,
        y: (ry % sim.grid.height) as i16,
    };
    if sim.is_occupied(cell) {
        return false;
    }
    sim.food = Some(Food { position: cell });
    true
}

/// Tries up to `width * height` random cells and puts the food on the first
/// free one. Does nothing when there is food already; on a board with no free
/// cell it places nothing.
pub fn spawn_system(sim: &mut SimulationState)
    requires
        old(sim)@.wf(),
    ensures
        final(sim)@.wf(),
        final(sim)@.grid == old(sim)@.grid,
        final(sim)@.snakes == old(sim)@.snakes,
        final(sim)@.state == old(sim)@.state,
        old(sim)@.food is Some ==> final(sim)@.food == old(sim)@.food,
        old(sim)@.food is None ==> (final(sim)@.food matches Some(f) ==> {
            &&& final(sim)@.grid.holds(f.x as int, f.y as int)
            &&& !occupied(final(sim)@.snakes, f.x as int, f.y as int)
        }),
        old(sim)@.food_clear() ==> final(sim)@.food_clear(),
{
    if sim.food.is_some() {
        return;
    }
    let ghost w = sim@;
    let width = sim.grid.width as u32;
    let height = sim.grid.height as u32;
    assert(width * height <= 32767 * 32767) by (nonlinear_arith)
        requires
            width <= 32767,
            height <= 32767,
    ;
    let tries: u32 = width * height;
    let mut k: u32 = 0;
    while k < tries
        invariant
            sim@ == w,
            w == old(sim)@,
            w.wf(),
            w.food is None,
        decreases tries - k,
    {
        let rx: u16 = rand::random::<u16>();
        let ry: u16 = rand::random::<u16>();
        if spawn_food_from_draw(sim, rx, ry) {
            return;
        }
        k = k + 1;
    }
}

} // verus!
