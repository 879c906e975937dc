use vstd::prelude::*;

use crate::components::{opposite_of, Direction, Position};
use crate::game::{occupied, Collision, CollisionCause, GameState, SimulationState, SimulationView};
use crate::grid::{step_from, Grid};

verus! {

/// The heading of a snake's head.
#[derive(Clone, Copy, Debug, PartialEq, Eq, Structural)]
pub struct Head {
    pub direction: Direction,
}

impl Default for Head {
    /// Every snake starts out heading up.
    fn default() -> (r: Self)
        ensures
            r.direction == Direction::Up,
    {
        Head { direction: Direction::Up }
    }
}

/// The cell that a snake's tail left on its last move: where a new segment
/// goes when the snake grows.
#[derive(Clone, Copy, Debug, PartialEq, Eq, Structural)]
pub struct LastTailPosition(pub Option<Position>);

impl Default for LastTailPosition {
    fn default() -> (r: Self)
        ensures
            r.0 is None,
    {
        LastTailPosition(None)
    }
}

/// A request that the snake of player `player_id` grow by one segment.
#[derive(Clone, Copy, Debug, PartialEq, Eq, Structural)]
pub struct GrowthEvent {
    pub player_id: u8,
}

/// One player's snake: its heading, its body from head (`segments[0]`) to
/// tail, and the cell its tail last vacated.
#[derive(Clone, Debug)]
pub struct Snake {
    pub head: Head,
    pub segments: Vec<Position>,
    pub last_tail_position: LastTailPosition,
}

/// What a snake is, mathematically.
pub struct SnakeView {
    pub direction: Direction,
    pub segments: Seq<Position>,
    pub last_tail: Option<Position>,
}

impl View for Snake {
    type V = SnakeView;

    open spec fn view(&self) -> SnakeView {
        SnakeView {
            direction: self.head.direction,
            segments: self.segments@,
            last_tail: self.last_tail_position.0,
        }
    }
}

/// The snake lies on the board `g`: it has a head, and its segments and the
/// cell its tail last vacated are all on the board.
pub open spec fn snake_on(s: SnakeView, g: Grid) -> bool {
    &&& s.segments.len() >= 1
    &&& forall|j: int|
        0 <= j < s.segments.len() ==> g.holds(#[trigger] s.segments[j].x as int, s.segments[j].y as int)
    &&& s.last_tail matches Some(t) ==> g.holds(t.x as int, t.y as int)
}

/// The heading after a request: a request to turn straight around is ignored,
/// any other request is taken, and no request keeps the heading.
pub open spec fn resolve(current: Direction, requested: Option<Direction>) -> Direction {
    match requested {
        Some(d) => if d == opposite_of(current) {
            current
        } else {
            d
        },
        None => current,
    }
}

/// Applies the no-reversal rule to a requested heading.
pub fn resolve_direction(current: Direction, requested: Option<Direction>) -> (r: Direction)
    ensures
        r == resolve(current, requested),
{
    match requested {
        Some(d) => if d == current.opposite() {
            current
        } else {
            d
        },
        None => current,
    }
}

/// A request to reverse leaves the heading as it was; any other request,
/// the current heading included, becomes the new heading.
pub proof fn lemma_resolve(current: Direction, requested: Direction)
    ensures
        resolve(current, Some(opposite_of(current))) == current,
        requested != opposite_of(current) ==> resolve(current, Some(requested)) == requested,
        resolve(current, None) == current,
{
}

/// The snake moved so that its head is at `head`: each other segment takes
/// the place the one before it held, and the old tail cell is remembered.
pub open spec fn advanced(s: SnakeView, head: Position) -> SnakeView {
    SnakeView {
        segments: seq![head] + s.segments.drop_last(),
        last_tail: Some(s.segments.last()),
        ..s
    }
}

impl Snake {
    /// Moves the snake so that its head is at `new_head`, every other segment
    /// following the one before it.
    pub fn advance(&mut self, new_head: Position)
        requires
            old(self).segments.len() >= 1,
        ensures
            final(self)@ == advanced(old(self)@, new_head),
    {
        let n = self.segments.len();
        let tail = self.segments[n - 1];
        let mut body: Vec<Position> = Vec::new();
        body.push(new_head);
        let mut j: usize = 0;
        while j + 1 < n
            invariant
                n == self.segments.len(),
                n >= 1,
                j + 1 <= n,
                body@ == seq![new_head] + self.segments@.subrange(0, j as int),
            decreases n - j,
        {
            body.push(self.segments[j]);
            j = j + 1;
            assert(body@ =~= seq![new_head] + self.segments@.subrange(0, j as int));
        }
        assert(self.segments@.subrange(0, j as int) =~= self.segments@.drop_last());
        self.segments = body;
        self.last_tail_position = LastTailPosition(Some(tail));
    }
}

/// Adds a segment at `position` to the tail of `snake`.
pub fn spawn_segment_system(snake: &mut Snake, position: Position)
    ensures
        final(snake)@ == (SnakeView { segments: old(snake)@.segments.push(position), ..old(snake)@ }),
{
    snake.segments.push(position);
}

/// The column in which player `player_id`'s snake starts: the fourth from
/// the left for the first player, the fourth from the right for the second.
pub open spec fn start_column(player_id: int, width: int) -> int {
    if player_id == 0 {
        3
    } else {
        width - 3
    }
}

/// Player `player_id`'s snake at the start: heading up, with its head on row
/// 3 and one segment below it, on row 2.
pub open spec fn start_snake(player_id: int, width: int) -> SnakeView {
    let x = start_column(player_id, width) as i16;
    SnakeView {
        direction: Direction::Up,
        segments: seq![Position { x, y: 3 }, Position { x, y: 2 }],
        last_tail: None,
    }
}

/// The board has room for the starting snakes of `players` players, one or
/// two, without overlap.
pub open spec fn fits_players(g: Grid, players: int) -> bool {
    &&& g.wf()
    &&& 1 <= players <= 2
    &&& g.width >= 4
    &&& g.height >= 4
    &&& players == 2 ==> g.width >= 7
}

/// The starting snake of player `player_id`.
pub fn spawn_entity_with_segment(player_id: u8, grid: &Grid) -> (r: Snake)
    requires
        grid.wf(),
        grid.height >= 4,
        player_id <= 1,
        0 <= start_column(player_id as int, grid.width as int) < grid.width,
    ensures
        r@ == start_snake(player_id as int, grid.width as int),
        snake_on(r@, *grid),
{
    let x: i16 = if player_id == 0 {
        3
    } else {
        (grid.width - 3) as i16
    };
    let mut snake = Snake {
        head: Head::default(),
        segments: Vec::new(),
        last_tail_position: LastTailPosition::default(),
    };
    snake.segments.push(Position { x, y: 3 });
    spawn_segment_system(&mut snake, Position { x, y: 2 });
    assert(snake.segments@ =~= seq![Position { x, y: 3 }, Position { x, y: 2 }]);
    snake
}

/// The starting snakes of `players` players, player `i` at index `i`.
pub fn spawn_system(grid: &Grid, players: u8) -> (r: Vec<Snake>)
    requires
        fits_players(*grid, players as int),
    ensures
        r@.len() == players,
        forall|i: int|
            0 <= i < players ==> (#[trigger] r@[i])@ == start_snake(i, grid.width as int),
        forall|i: int| 0 <= i < players ==> snake_on((#[trigger] r@[i])@, *grid),
{
    let mut snakes: Vec<Snake> = Vec::new();
    snakes.push(spawn_entity_with_segment(0, grid));
    if players == 2 {
        snakes.push(spawn_entity_with_segment(1, grid));
    }
    snakes
}

/// The heading requested for player `i`, if any.
pub open spec fn intent_for(intents: Seq<Option<Direction>>, i: int) -> Option<Direction> {
    if 0 <= i < intents.len() {
        intents[i]
    } else {
        None
    }
}

/// The session after each player's request (`intents[i]` for player `i`) has
/// gone through the no-reversal rule.
pub open spec fn steered(w: SimulationView, intents: Seq<Option<Direction>>) -> SimulationView {
    SimulationView {
        snakes: Seq::new(
            w.snakes.len(),
            |i: int|
                SnakeView {
                    direction: resolve(w.snakes[i].direction, intent_for(intents, i)),
                    ..w.snakes[i]
                },
        ),
        ..w
    }
}

/// Sets each snake's heading from its player's request, ignoring reversals.
pub fn movement_input_system(sim: &mut SimulationState, intents: &Vec<Option<Direction>>)
    ensures
        final(sim)@ == steered(old(sim)@, intents@),
        old(sim)@.wf() ==> final(sim)@.wf(),
        old(sim)@.food_clear() ==> final(sim)@.food_clear(),
{
    let ghost w = sim@;
    let n = sim.snakes.len();
    let mut i: usize = 0;
    while i < n
        invariant
            n == sim.snakes.len(),
            i <= n,
            w.snakes.len() == n,
            sim.grid == w.grid,
            sim@.food == w.food,
            sim.state == w.state,
            forall|k: int| 0 <= k < i ==> (#[trigger] sim.snakes@[k])@ == steered(w, intents@).snakes[k],
            forall|k: int| i <= k < n ==> (#[trigger] sim.snakes@[k])@ == w.snakes[k],
        decreases n - i,
    {
        let requested = if i < intents.len() {
            intents[i]
        } else {
            None
        };
        let current = sim.snakes[i].head.direction;
        sim.snakes[i].head.direction = resolve_direction(current, requested);
        i = i + 1;
    }
    assert(sim@.snakes =~= steered(w, intents@).snakes);
    proof {
        let v = steered(w, intents@);
        assert forall|i: int| 0 <= i < v.snakes.len() implies v.snakes[i].segments == w.snakes[i].segments
            && v.snakes[i].last_tail == w.snakes[i].last_tail by {}
        if w.food_clear() {
            if let Some(f) = v.food {
                if occupied(v.snakes, f.x as int, f.y as int) {
                    let (a, b) = choose|a: int, b: int|
                        0 <= a < v.snakes.len() && 0 <= b < v.snakes[a].segments.len() && #[trigger] v.snakes[a].segments[b].x
                            == f.x && v.snakes[a].segments[b].y == f.y;
                    assert(w.snakes[a].segments[b] == v.snakes[a].segments[b]);
                }
            }
        }
    }
}

/// The cell that snake `s`'s head moves to.
pub open spec fn target(s: SnakeView) -> (int, int) {
    step_from(s.segments[0], s.direction)
}

/// What snake `i` runs into on this move, judged against the cells held
/// before anything moves: the board's edge, any segment of any snake, or
/// nothing.
pub open spec fn collision_cause(w: SimulationView, i: int) -> Option<CollisionCause> {
    let t = target(w.snakes[i]);
    if !w.grid.holds(t.0, t.1) {
        Some(CollisionCause::Wall)
    } else if occupied(w.snakes, t.0, t.1) {
        Some(CollisionCause::Body)
    } else {
        None
    }
}

/// Snake `i` after the move: in place if it collides, else advanced onto its
/// target cell.
pub open spec fn moved_snake(w: SimulationView, i: int) -> SnakeView {
    let t = target(w.snakes[i]);
    if collision_cause(w, i) is Some {
        w.snakes[i]
    } else {
        advanced(w.snakes[i], Position { x: t.0 as i16, y: t.1 as i16 })
    }
}

/// The session after the movement phase. Once the game is over nothing moves.
pub open spec fn moved(w: SimulationView) -> SimulationView {
    if w.state is GameOver {
        w
    } else {
        SimulationView { snakes: Seq::new(w.snakes.len(), |i: int| moved_snake(w, i)), ..w }
    }
}

/// The collisions of players `0 .. n`, in player order.
pub open spec fn collisions_upto(w: SimulationView, n: int) -> Seq<Collision>
    decreases n,
{
    if n <= 0 {
        seq![]
    } else {
        let before = collisions_upto(w, n - 1);
        match collision_cause(w, n - 1) {
            Some(c) => before.push(Collision { player_id: (n - 1) as u8, cause: c }),
            None => before,
        }
    }
}

/// The collisions that the movement phase reports, in player order.
pub open spec fn collisions_of(w: SimulationView) -> Seq<Collision> {
    if w.state is GameOver {
        seq![]
    } else {
        collisions_upto(w, w.snakes.len() as int)
    }
}

/// Moves every snake one cell along its heading, unless the game is over.
/// All targets and collisions are judged on the cells held before the tick;
/// a snake that collides stays where it is. Returns the collisions in player
/// order.
pub fn movement_system(sim: &mut SimulationState) -> (collisions: Vec<Collision>)
    requires
        old(sim)@.wf(),
    ensures
        final(sim)@ == moved(old(sim)@),
        final(sim)@.wf(),
        collisions@ == collisions_of(old(sim)@),
{
    if let GameState::GameOver(_) = sim.state {
        return Vec::new();
    }
    let ghost w = sim@;
    let n = sim.snakes.len();
    let mut plans: Vec<Option<Position>> = Vec::new();
    let mut collisions: Vec<Collision> = Vec::new();
    let mut i: usize = 0;
    while i < n
        invariant
            n == sim.snakes.len(),
            sim@ == w,
            w.wf(),
            i <= n,
            plans@.len() == i,
            collisions@ == collisions_upto(w, i as int),
            forall|k: int|
                0 <= k < i ==> (#[trigger] plans@[k]) == (if collision_cause(w, k) is Some {
                    None::<Position>
                } else {
                    Some(Position { x: target(w.snakes[k]).0 as i16, y: target(w.snakes[k]).1 as i16 })
                }),
        decreases n - i,
    {
        assert(snake_on(w.snakes[i as int], w.grid));
        let head = sim.snakes[i].segments[0];
        let t = sim.grid.neighbor(head, sim.snakes[i].head.direction);
        if !sim.grid.contains(t) {
            collisions.push(Collision { player_id: i as u8, cause: CollisionCause::Wall });
            plans.push(None);
        } else if sim.is_occupied(t) {
            collisions.push(Collision { player_id: i as u8, cause: CollisionCause::Body });
            plans.push(None);
        } else {
            plans.push(Some(t));
        }
        i = i + 1;
    }
    let mut i: usize = 0;
    while i < n
        invariant
            n == sim.snakes.len(),
            w.wf(),
            w.snakes.len() == n,
            w.state is Running,
            i <= n,
            plans@.len() == n,
            sim.grid == w.grid,
            sim@.food == w.food,
            sim.state == w.state,
            forall|k: int|
                0 <= k < n ==> (#[trigger] plans@[k]) == (if collision_cause(w, k) is Some {
                    None::<Position>
                } else {
                    Some(Position { x: target(w.snakes[k]).0 as i16, y: target(w.snakes[k]).1 as i16 })
                }),
            forall|k: int| 0 <= k < i ==> (#[trigger] sim.snakes@[k])@ == moved_snake(w, k),
            forall|k: int| i <= k < n ==> (#[trigger] sim.snakes@[k])@ == w.snakes[k],
        decreases n - i,
    {
        assert(snake_on(w.snakes[i as int], w.grid));
        if let Some(t) = plans[i] {
            sim.snakes[i].advance(t);
        }
        i = i + 1;
    }
    assert(sim@.snakes =~= moved(w).snakes);
    proof {
        lemma_moved_wf(w);
    }
    collisions
}

proof fn lemma_moved_wf(w: SimulationView)
    requires
        w.wf(),
    ensures
        moved(w).wf(),
{
    if w.state is Running {
        let v = moved(w);
        assert forall|i: int| 0 <= i < v.snakes.len() implies snake_on(#[trigger] v.snakes[i], v.grid) by {
            let s = w.snakes[i];
            assert(snake_on(s, w.grid));
            if collision_cause(w, i) is None {
                let t = target(s);
                let h = Position { x: t.0 as i16, y: t.1 as i16 };
                let ns = advanced(s, h);
                assert(w.grid.holds(t.0, t.1));
                assert forall|j: int| 0 <= j < ns.segments.len() implies w.grid.holds(
                    #[trigger] ns.segments[j].x as int,
                    ns.segments[j].y as int,
                ) by {
                    if j > 0 {
                        assert(ns.segments[j] == s.segments[j - 1]);
                    }
                }
                assert(s.segments.last() == s.segments[s.segments.len() - 1]);
            }
        }
    }
}

/// Whether player `i`'s head is on the food.
pub open spec fn eats(w: SimulationView, i: int) -> bool {
    w.food matches Some(f) && w.snakes[i].segments[0] == f
}

/// Player `i` is the first player, in player order, whose head is on the food.
pub open spec fn first_eater(w: SimulationView, i: int) -> bool {
    &&& 0 <= i < w.snakes.len()
    &&& eats(w, i)
    &&& forall|j: int| 0 <= j < i ==> !eats(w, j)
}

/// Some player's head is on the food.
pub open spec fn someone_eats(w: SimulationView) -> bool {
    exists|i: int| 0 <= i < w.snakes.len() && eats(w, i)
}

/// The session after the eating phase: the food is gone if a head reached it.
pub open spec fn fed(w: SimulationView) -> SimulationView {
    if someone_eats(w) {
        SimulationView { food: None, ..w }
    } else {
        w
    }
}

/// The growth requests of the eating phase: one, for the first player whose
/// head reached the food, or none.
pub open spec fn growth_events(w: SimulationView) -> Seq<GrowthEvent> {
    if someone_eats(w) {
        seq![GrowthEvent { player_id: (choose|i: int| first_eater(w, i)) as u8 }]
    } else {
        seq![]
    }
}

/// Removes the food if a head has reached it, and asks that the first such
/// player, in player order, grow. Another head on the same cell gets nothing.
pub fn eating_system(sim: &mut SimulationState) -> (events: Vec<GrowthEvent>)
    requires
        old(sim)@.wf(),
    ensures
        final(sim)@ == fed(old(sim)@),
        final(sim)@.wf(),
        events@ == growth_events(old(sim)@),
{
    let ghost w = sim@;
    let f = match sim.food {
        Some(f) => f,
        None => return Vec::new(),
    };
    let n = sim.snakes.len();
    let mut i: usize = 0;
    while i < n
        invariant
            n == sim.snakes.len(),
            sim@ == w,
            old(sim)@ == w,
            w.wf(),
            w.food == Some(f.position),
            i <= n,
            forall|j: int| 0 <= j < i ==> !eats(w, j),
        decreases n - i,
    {
        assert(snake_on(w.snakes[i as int], w.grid));
        if sim.snakes[i].segments[0] == f.position {
            sim.food = None;
            assert(first_eater(w, i as int));
            assert forall|j: int| first_eater(w, j) implies j == i by {
                if j < i {
                } else if j > i {
                    assert(!eats(w, i as int));
                }
            }
            assert(someone_eats(w));
            assert((choose|j: int| first_eater(w, j)) == i);
            let mut events: Vec<GrowthEvent> = Vec::new();
            events.push(GrowthEvent { player_id: i as u8 });
            assert(events@ =~= growth_events(w));
            assert(sim@ == fed(w));
            return events;
        }
        i = i + 1;
    }
    assert(!someone_eats(w));
    Vec::new()
}

/// How many of `events` ask that player `i` grow.
pub open spec fn growth_count(events: Seq<GrowthEvent>, i: int) -> nat
    decreases events.len(),
{
    if events.len() == 0 {
        0
    } else {
        growth_count(events.drop_last(), i) + if events.last().player_id == i {
            1nat
        } else {
            0nat
        }
    }
}

/// Snake `s` with `k` segments added at the cell its tail last vacated; a
/// snake that has not moved yet has no such cell and stays as it is.
pub open spec fn grown_snake(s: SnakeView, k: nat) -> SnakeView {
    match s.last_tail {
        Some(t) => SnakeView { segments: s.segments + Seq::new(k, |j: int| t), ..s },
        None => s,
    }
}

/// The session after the growth phase: each request adds one segment to its
/// player's snake. A request for a player who is not in the game does
/// nothing.
pub open spec fn grown(w: SimulationView, events: Seq<GrowthEvent>) -> SimulationView {
    SimulationView {
        snakes: Seq::new(w.snakes.len(), |i: int| grown_snake(w.snakes[i], growth_count(events, i))),
        ..w
    }
}

/// Grows each requested snake by one segment at the cell its tail vacated on
/// this tick's move.
pub fn growth_system(sim: &mut SimulationState, events: &Vec<GrowthEvent>)
    ensures
        final(sim)@ == grown(old(sim)@, events@),
        old(sim)@.wf() ==> final(sim)@.wf(),
{
    let ghost w = sim@;
    let n = sim.snakes.len();
    let mut q: usize = 0;
    while q < events.len()
        invariant
            n == sim.snakes.len(),
            w.snakes.len() == n,
            q <= events.len(),
            sim.grid == w.grid,
            sim@.food == w.food,
            sim.state == w.state,
            forall|k: int|
                0 <= k < n ==> (#[trigger] sim.snakes@[k])@ == grown_snake(
                    w.snakes[k],
                    growth_count(events@.take(q as int), k),
                ),
        decreases events.len() - q,
    {
        let ghost before = sim.snakes@;
        let id = events[q].player_id as usize;
        if id < sim.snakes.len() {
            if let Some(t) = sim.snakes[id].last_tail_position.0 {
                spawn_segment_system(&mut sim.snakes[id], t);
            }
        }
        proof {
            let e = events@.take(q as int);
            let e1 = events@.take(q + 1);
            assert(e1.drop_last() =~= e);
            assert(e1.last() == events@[q as int]);
            assert forall|k: int| 0 <= k < n implies (#[trigger] sim.snakes@[k])@ == grown_snake(
                w.snakes[k],
                growth_count(e1, k),
            ) by {
                if k == id {
                    let c = growth_count(e, k);
                    if let Some(t) = w.snakes[k].last_tail {
                        assert(w.snakes[k].segments + Seq::new(c + 1, |j: int| t) =~= (
                        w.snakes[k].segments + Seq::new(c, |j: int| t)).push(t));
                    }
                }
            }
        }
        q = q + 1;
    }
    assert(events@.take(events.len() as int) =~= events@);
    assert(sim@.snakes =~= grown(w, events@).snakes);
    proof {
        if w.wf() {
            lemma_grown_wf(w, events@);
        }
    }
}

proof fn lemma_grown_wf(w: SimulationView, events: Seq<GrowthEvent>)
    requires
        w.wf(),
    ensures
        grown(w, events).wf(),
{
    let v = grown(w, events);
    assert forall|i: int| 0 <= i < v.snakes.len() implies snake_on(#[trigger] v.snakes[i], v.grid) by {
        let s = w.snakes[i];
        assert(snake_on(s, w.grid));
        if let Some(t) = s.last_tail {
            let ns = v.snakes[i];
            assert forall|j: int| 0 <= j < ns.segments.len() implies w.grid.holds(
                #[trigger] ns.segments[j].x as int,
                ns.segments[j].y as int,
            ) by {
                if j < s.segments.len() {
                    assert(ns.segments[j] == s.segments[j]);
                } else {
                    assert(ns.segments[j] == t);
                }
            }
        }
    }
}

} // verus!
