use vstd::prelude::*;

use crate::components::{Direction, GameEndEvent, Position};
use crate::food::Food;
use crate::grid::Grid;
use crate::snake::{
    collision_cause, collisions_of, collisions_upto, eating_system, eats, fed, first_eater,
    fits_players, grown, growth_count, growth_events, growth_system, intent_for,
    movement_input_system, movement_system, moved, moved_snake, resolve, snake_on, someone_eats,
    spawn_system, start_snake, steered, target, GrowthEvent, Snake, SnakeView,
};

verus! {

/// Most players a game can have.
pub const MAX_PLAYERS: usize = 2;

/// What a snake ran into.
#[derive(Clone, Copy, Debug, PartialEq, Eq, Structural)]
pub enum CollisionCause {
    /// Its head would have left the board.
    Wall,
    /// Its head would have entered a cell that a snake held.
    Body,
}

/// A collision of player `player_id`'s snake on one tick.
#[derive(Clone, Copy, Debug, PartialEq, Eq, Structural)]
pub struct Collision {
    pub player_id: u8,
    pub cause: CollisionCause,
}

/// Whether the game still runs. `GameOver` is final and keeps the cause of
/// the collision that ended the game.
#[derive(Clone, Copy, Debug, PartialEq, Eq, Structural)]
pub enum GameState {
    Running,
    GameOver(CollisionCause),
}

/// Everything one game session holds: the board, one snake per player
/// (player `i` owns `snakes[i]`), the food cell if any, and the state.
#[derive(Clone, Debug)]
pub struct SimulationState {
    pub grid: Grid,
    pub snakes: Vec<Snake>,
    pub food: Option<Food>,
    pub state: GameState,
}

/// What a session is, mathematically.
pub struct SimulationView {
    pub grid: Grid,
    pub snakes: Seq<SnakeView>,
    pub food: Option<Position>,
    pub state: GameState,
}

/// The views of a sequence of snakes.
pub open spec fn snake_views(snakes: Seq<Snake>) -> Seq<SnakeView> {
    snakes.map_values(|s: Snake| s@)
}

impl View for SimulationState {
    type V = SimulationView;

    open spec fn view(&self) -> SimulationView {
        SimulationView {
            grid: self.grid,
            snakes: snake_views(self.snakes@),
            food: match self.food {
                Some(f) => Some(f.position),
                None => None,
            },
            state: self.state,
        }
    }
}

/// Whether some segment of some snake lies on the cell `(x, y)`.
pub open spec fn occupied(snakes: Seq<SnakeView>, x: int, y: int) -> bool {
    exists|i: int, j: int|
        0 <= i < snakes.len() && 0 <= j < snakes[i].segments.len() && #[trigger] snakes[i].segments[j].x
            == x && snakes[i].segments[j].y == y
}

impl SimulationView {
    /// The board is valid, there are one or two players, every snake lies on
    /// the board, and so does the food.
    pub open spec fn wf(self) -> bool {
        &&& self.grid.wf()
        &&& 1 <= self.snakes.len() <= MAX_PLAYERS
        &&& forall|i: int| 0 <= i < self.snakes.len() ==> snake_on(#[trigger] self.snakes[i], self.grid)
        &&& self.food matches Some(f) ==> self.grid.holds(f.x as int, f.y as int)
    }

    /// The food, if any, lies on no snake.
    pub open spec fn food_clear(self) -> bool {
        self.food matches Some(f) ==> !occupied(self.snakes, f.x as int, f.y as int)
    }
}

/// A fresh session on a `width` by `height` board with `players` players.
pub open spec fn initial(width: u16, height: u16, players: u8) -> SimulationView {
    SimulationView {
        grid: Grid { width, height },
        snakes: Seq::new(players as nat, |i: int| start_snake(i, width as int)),
        food: None,
        state: GameState::Running,
    }
}

impl SimulationState {
    /// A fresh session, or `None` when the board is not valid or has no room
    /// for the starting snakes of `players` players (one or two).
    pub fn new(width: u16, height: u16, players: u8) -> (r: Option<SimulationState>)
        ensures
            r is None <==> !fits_players(Grid { width, height }, players as int),
            r matches Some(s) ==> s@ == initial(width, height, players) && s@.wf() && s@.food_clear(),
    {
        let grid = match Grid::new(width, height) {
            Some(g) => g,
            None => return None,
        };
        if players < 1 || players > 2 || width < 4 || height < 4 || (players == 2 && width < 7) {
            return None;
        }
        let snakes = spawn_system(&grid, players);
        let sim = SimulationState { grid, snakes, food: None, state: GameState::Running };
        assert(sim@.snakes =~= initial(width, height, players).snakes);
        Some(sim)
    }

    /// Whether some segment of some snake lies on `p`.
    pub fn is_occupied(&self, p: Position) -> (r: bool)
        ensures
            r == occupied(self@.snakes, p.x as int, p.y as int),
    {
        let ghost snakes = self@.snakes;
        let n = self.snakes.len();
        let mut i: usize = 0;
        while i < n
            invariant
                n == self.snakes.len(),
                snakes == self@.snakes,
                i <= n,
                forall|a: int, b: int|
                    0 <= a < i && 0 <= b < snakes[a].segments.len() ==> !(
                    #[trigger] snakes[a].segments[b].x == p.x && snakes[a].segments[b].y == p.y),
            decreases n - i,
        {
            let segs = &self.snakes[i].segments;
            let m = segs.len();
            let mut j: usize = 0;
            while j < m
                invariant
                    n == self.snakes.len(),
                    snakes == self@.snakes,
                    i < n,
                    segs@ == snakes[i as int].segments,
                    m == segs.len(),
                    j <= m,
                    forall|a: int, b: int|
                        0 <= a < i && 0 <= b < snakes[a].segments.len() ==> !(
                        #[trigger] snakes[a].segments[b].x == p.x && snakes[a].segments[b].y == p.y),
                    forall|b: int|
                        0 <= b < j ==> !(#[trigger] snakes[i as int].segments[b].x == p.x
                            && snakes[i as int].segments[b].y == p.y),
                decreases m - j,
            {
                if segs[j].x == p.x && segs[j].y == p.y {
                    assert(snakes[i as int].segments[j as int].x == p.x);
                    return true;
                }
                j = j + 1;
            }
            i = i + 1;
        }
        false
    }
}

/// The session after the game-over phase: the first collision reported on
/// this tick ends a running game, with that collision's cause.
pub open spec fn ended(w: SimulationView, collisions: Seq<Collision>) -> SimulationView {
    if w.state is Running && collisions.len() > 0 {
        SimulationView { state: GameState::GameOver(collisions[0].cause), ..w }
    } else {
        w
    }
}

/// Ends a running game when this tick reported a collision. Returns the
/// end-of-game signal exactly when the game ends now, so that it is
/// announced once.
pub fn game_over_system(sim: &mut SimulationState, collisions: &Vec<Collision>) -> (r: Option<GameEndEvent>)
    ensures
        final(sim)@ == ended(old(sim)@, collisions@),
        r is Some <==> old(sim)@.state is Running && collisions@.len() > 0,
        r matches Some(e) ==> e == GameEndEvent::GameOver,
{
    if let GameState::Running = sim.state {
        if collisions.len() > 0 {
            sim.state = GameState::GameOver(collisions[0].cause);
            return Some(GameEndEvent::GameOver);
        }
    }
    None
}

/// What one tick reported: the collisions in player order, the growth
/// requests from eating, and the end-of-game signal if the game ended on it.
#[derive(Clone, Debug)]
pub struct TickReport {
    pub collisions: Vec<Collision>,
    pub growth: Vec<GrowthEvent>,
    pub game_end: Option<GameEndEvent>,
}

/// The session after one movement tick: steering, movement, eating, growth
/// and game-over, in that order. A finished game does not change.
pub open spec fn after_tick(w: SimulationView, intents: Seq<Option<Direction>>) -> SimulationView {
    if w.state is GameOver {
        w
    } else {
        let steady = steered(w, intents);
        let after_move = moved(steady);
        ended(grown(fed(after_move), growth_events(after_move)), collisions_of(steady))
    }
}

/// Runs one movement tick with the players' requests (`intents[i]` for
/// player `i`; a missing entry is no request). Once the game is over the
/// tick changes nothing and reports nothing.
pub fn tick(sim: &mut SimulationState, intents: &Vec<Option<Direction>>) -> (r: TickReport)
    requires
        old(sim)@.wf(),
    ensures
        final(sim)@ == after_tick(old(sim)@, intents@),
        final(sim)@.wf(),
        old(sim)@.food_clear() ==> final(sim)@.food_clear(),
        old(sim)@.state is GameOver ==> r.collisions@.len() == 0 && r.growth@.len() == 0
            && r.game_end is None,
        old(sim)@.state is Running ==> {
            &&& r.collisions@ == collisions_of(steered(old(sim)@, intents@))
            &&& r.growth@ == growth_events(moved(steered(old(sim)@, intents@)))
            &&& (r.game_end is Some <==> r.collisions@.len() > 0)
        },
        r.game_end matches Some(e) ==> e == GameEndEvent::GameOver,
{
    let ghost w = sim@;
    if let GameState::GameOver(_) = sim.state {
        return TickReport { collisions: Vec::new(), growth: Vec::new(), game_end: None };
    }
    movement_input_system(sim, intents);
    let collisions = movement_system(sim);
    let growth = eating_system(sim);
    growth_system(sim, &growth);
    let game_end = game_over_system(sim, &collisions);
    proof {
        if w.food_clear() {
            lemma_tick_keeps_food_clear(w, intents@);
        }
    }
    TickReport { collisions, growth, game_end }
}

/// After one tick of a running game the food, if still there, lies on no
/// snake: a head that reaches it eats it, and every other segment moves onto
/// a cell that was already held.
pub proof fn lemma_tick_keeps_food_clear(w: SimulationView, intents: Seq<Option<Direction>>)
    requires
        w.wf(),
        w.food_clear(),
    ensures
        after_tick(w, intents).food_clear(),
{
    if w.state is Running {
        let w1 = steered(w, intents);
        let w2 = moved(w1);
        assert forall|i: int| 0 <= i < w1.snakes.len() implies (#[trigger] w1.snakes[i]).segments
            == w.snakes[i].segments by {}
        if !someone_eats(w2) {
            if let Some(f) = w2.food {
                if occupied(w2.snakes, f.x as int, f.y as int) {
                    let (a, b) = choose|a: int, b: int|
                        0 <= a < w2.snakes.len() && 0 <= b < w2.snakes[a].segments.len()
                            && #[trigger] w2.snakes[a].segments[b].x == f.x
                            && w2.snakes[a].segments[b].y == f.y;
                    assert(w2.snakes[a] == moved_snake(w1, a));
                    if b == 0 {
                        assert(w2.snakes[a].segments[0] == f);
                        assert(eats(w2, a));
                    } else if collision_cause(w1, a) is Some {
                        assert(w.snakes[a].segments[b] == w2.snakes[a].segments[b]);
                    } else {
                        assert(w2.snakes[a].segments[b] == w1.snakes[a].segments[b - 1]);
                        assert(w.snakes[a].segments[b - 1] == w2.snakes[a].segments[b]);
                    }
                }
            }
            let w3 = fed(w2);
            let w4 = grown(w3, growth_events(w2));
            assert forall|i: int| 0 <= i < w4.snakes.len() implies (#[trigger] w4.snakes[i]).segments
                == w2.snakes[i].segments by {
                assert(growth_count(growth_events(w2), i) == 0);
                if let Some(t) = w2.snakes[i].last_tail {
                    assert(w2.snakes[i].segments + Seq::new(0, |j: int| t) =~= w2.snakes[i].segments);
                }
            }
            let w5 = after_tick(w, intents);
            if let Some(f) = w5.food {
                if occupied(w5.snakes, f.x as int, f.y as int) {
                    let (a, b) = choose|a: int, b: int|
                        0 <= a < w5.snakes.len() && 0 <= b < w5.snakes[a].segments.len()
                            && #[trigger] w5.snakes[a].segments[b].x == f.x
                            && w5.snakes[a].segments[b].y == f.y;
                    assert(w2.snakes[a].segments[b] == w5.snakes[a].segments[b]);
                }
            }
        }
    }
}

proof fn lemma_collisions_nonempty(w: SimulationView, n: int, k: int)
    requires
        0 <= k < n,
        collision_cause(w, k) is Some,
    ensures
        collisions_upto(w, n).len() > 0,
    decreases n,
{
    if k < n - 1 {
        lemma_collisions_nonempty(w, n - 1, k);
    }
}

proof fn lemma_first_eater_exists(w: SimulationView, k: int)
    requires
        0 <= k < w.snakes.len(),
        eats(w, k),
    ensures
        exists|j: int| first_eater(w, j),
    decreases k,
{
    if exists|j: int| 0 <= j < k && eats(w, j) {
        let j = choose|j: int| 0 <= j < k && eats(w, j);
        lemma_first_eater_exists(w, j);
    } else {
        assert(first_eater(w, k));
    }
}

proof fn lemma_first_eater_unique(w: SimulationView, i: int, j: int)
    requires
        first_eater(w, i),
        first_eater(w, j),
    ensures
        i == j,
{
    if i < j {
        assert(!eats(w, i));
    } else if j < i {
        assert(!eats(w, j));
    }
}

/// On a tick of a running game, steering changes headings only, so the cells
/// the snakes hold are those they held before the tick.
proof fn lemma_steered_cells(w: SimulationView, intents: Seq<Option<Direction>>)
    ensures
        steered(w, intents).snakes.len() == w.snakes.len(),
        forall|i: int|
            0 <= i < w.snakes.len() ==> (#[trigger] steered(w, intents).snakes[i]).segments
                == w.snakes[i].segments && steered(w, intents).snakes[i].last_tail
                == w.snakes[i].last_tail,
{
}

/// The growth phase leaves a snake for which nothing was requested as it is.
proof fn lemma_no_growth(w: SimulationView, events: Seq<GrowthEvent>, i: int)
    requires
        0 <= i < w.snakes.len(),
        growth_count(events, i) == 0,
    ensures
        grown(w, events).snakes[i] == w.snakes[i],
{
    if let Some(t) = w.snakes[i].last_tail {
        assert(w.snakes[i].segments + Seq::new(0, |j: int| t) =~= w.snakes[i].segments);
    }
}

/// Which player the eating phase asks to grow: the first eater, if any.
proof fn lemma_growth_events(w: SimulationView, i: int)
    requires
        0 <= i < w.snakes.len(),
        w.snakes.len() <= MAX_PLAYERS,
    ensures
        growth_count(growth_events(w), i) == (if first_eater(w, i) {
            1nat
        } else {
            0nat
        }),
{
    let ev = growth_events(w);
    if someone_eats(w) {
        let k = choose|k: int| 0 <= k < w.snakes.len() && eats(w, k);
        lemma_first_eater_exists(w, k);
        let e = choose|j: int| first_eater(w, j);
        assert(ev.drop_last() =~= Seq::<GrowthEvent>::empty());
        assert(growth_count(ev.drop_last(), i) == 0);
        assert(ev.last().player_id == e as u8);
        assert(0 <= e < MAX_PLAYERS);
        if first_eater(w, i) {
            lemma_first_eater_unique(w, i, e);
        } else {
            assert(e != i);
        }
    } else {
        assert(!first_eater(w, i));
    }
}

/// A snake whose head is on the left edge of the board and which heads left
/// once its player's request is applied runs into the wall: the game is over
/// after that tick, and the snake holds the same cells as before it.
pub proof fn lemma_wall_ends_game(w: SimulationView, intents: Seq<Option<Direction>>, i: int)
    requires
        w.wf(),
        w.food_clear(),
        w.state is Running,
        0 <= i < w.snakes.len(),
        w.snakes[i].segments[0].x == 0,
        resolve(w.snakes[i].direction, intent_for(intents, i)) == Direction::Left,
    ensures
        after_tick(w, intents).state is GameOver,
        after_tick(w, intents).snakes[i].segments == w.snakes[i].segments,
{
    let w1 = steered(w, intents);
    lemma_steered_cells(w, intents);
    assert(collision_cause(w1, i) == Some(CollisionCause::Wall));
    lemma_collisions_nonempty(w1, w1.snakes.len() as int, i);
    let w2 = moved(w1);
    assert(w2.snakes[i] == w1.snakes[i]);
    assert(snake_on(w.snakes[i], w.grid));
    if let Some(f) = w2.food {
        if eats(w2, i) {
            assert(occupied(w.snakes, f.x as int, f.y as int));
        }
    }
    lemma_growth_events(w2, i);
    lemma_no_growth(fed(w2), growth_events(w2), i);
}

/// A head that would move onto a cell that some snake held before the tick,
/// its own body or another snake's, ends the game on that tick.
pub proof fn lemma_body_collision_ends_game(w: SimulationView, intents: Seq<Option<Direction>>, i: int)
    requires
        w.wf(),
        w.state is Running,
        0 <= i < w.snakes.len(),
        occupied(w.snakes, target(steered(w, intents).snakes[i]).0, target(steered(w, intents).snakes[i]).1),
    ensures
        after_tick(w, intents).state is GameOver,
{
    let w1 = steered(w, intents);
    lemma_steered_cells(w, intents);
    let t = target(w1.snakes[i]);
    let (a, b) = choose|a: int, b: int|
        0 <= a < w.snakes.len() && 0 <= b < w.snakes[a].segments.len() && #[trigger] w.snakes[a].segments[b].x
            == t.0 && w.snakes[a].segments[b].y == t.1;
    assert(w1.snakes[a].segments[b] == w.snakes[a].segments[b]);
    assert(collision_cause(w1, i) is Some);
    lemma_collisions_nonempty(w1, w1.snakes.len() as int, i);
}

/// A head that reaches the food eats it, unless a head of an earlier player
/// reached it on the same tick: the food is gone after the tick, and the
/// eater's snake is one segment longer, the new last segment lying on the
/// cell its tail held before the tick.
pub proof fn lemma_eating_grows(w: SimulationView, intents: Seq<Option<Direction>>, i: int)
    requires
        w.wf(),
        w.food_clear(),
        w.state is Running,
        first_eater(moved(steered(w, intents)), i),
    ensures
        after_tick(w, intents).food is None,
        after_tick(w, intents).snakes[i].segments.len() == w.snakes[i].segments.len() + 1,
        after_tick(w, intents).snakes[i].segments.last() == w.snakes[i].segments.last(),
{
    let w1 = steered(w, intents);
    lemma_steered_cells(w, intents);
    let w2 = moved(w1);
    assert(snake_on(w.snakes[i], w.grid));
    let f = w.food.unwrap();
    if collision_cause(w1, i) is Some {
        assert(w2.snakes[i].segments[0] == w.snakes[i].segments[0]);
        assert(occupied(w.snakes, f.x as int, f.y as int));
    }
    assert(someone_eats(w2));
    lemma_growth_events(w2, i);
    let s2 = w2.snakes[i];
    let t = w.snakes[i].segments.last();
    assert(s2.last_tail == Some(t));
    assert(s2.segments.len() == w.snakes[i].segments.len());
    let s4 = grown(fed(w2), growth_events(w2)).snakes[i];
    assert(s4.segments == s2.segments + Seq::new(1, |j: int| t));
}

/// A finished game stays finished and frozen: a tick of it changes nothing,
/// and a game that runs after a tick also ran before it.
pub proof fn lemma_game_over_is_final(w: SimulationView, intents: Seq<Option<Direction>>)
    ensures
        w.state is GameOver ==> after_tick(w, intents) == w,
        after_tick(w, intents).state is Running ==> w.state is Running,
{
}

} // verus!
