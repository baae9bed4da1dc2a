//! Game lifecycle: (re)initialising the tick state, grid and entities, the
//! fixed per-frame pass order of the simulation, and periodic food spawning
//! at randomly drawn empty cells.

use crate::components::{
    Controls, Direction, Entity, Extension, Grid, InputState, Snake, Tick, Tile, Type,
};
use crate::controller::{chain_ok, controller_run_post, follower_inv, is_controlled, Collision,
    ControllerSystem};
use crate::extend::{extend_run_post, grows_this_tick, growth_ok, growth_source, ExtendSystem};
use crate::tick::{sample_sum, TickSystem, FPS_SAMPLE, TICKS_PER_SECOND, TICK_RATE};
use crate::world::World;
use crate::{GRID_X, GRID_Y};
use vstd::prelude::*;

verus! {

/// Relies on rand::random_range over `0..n`: the drawn value always lies
/// below the bound; nothing more is assumed of it.
#[verifier::external_body]
fn random_below(n: usize) -> (r: usize)
    requires
        1 <= n,
    ensures
        r < n,
{
    rand::random_range(0..n)
}

/// Whether the grid still has a free cell for food to appear on.
pub open spec fn has_empty_cell(g: Grid) -> bool {
    exists|x: int, y: int| #![trigger g.spec_get(x, y)]
        g.in_bounds(x, y) && g.spec_get(x, y) is None
}

/// The game's lifecycle hooks: resetting to the initial arrangement and the
/// once-per-frame update that spawns food.
pub struct GameState;

impl GameState {
    /// Resets the whole game: destroys every entity, restores the tick state
    /// and the grid to their empty defaults, and spawns the player's snake —
    /// heading right, queued to turn up, owed six tail segments — at its
    /// starting cell.
    pub fn reset(
        &mut self,
        world: &mut World,
        grid: &mut Grid,
        tick: &mut Tick,
        controls: Controls,
    )
        ensures
            final(world).wf(),
            final(world).spec_len() == 1,
            final(world).tiles@[0] == Some(
                Tile { x: (GRID_X / 2 - GRID_X / 4) as i32, y: (3 * GRID_Y / 4) as i32 },
            ),
            final(world).directions@[0] matches Some(d) && d.direction == (1i8, 0i8)
                && d.previous is None,
            final(world).snakes@[0] matches Some(s) && s.queued_direction == (0i8, -1i8)
                && s.length == 1 && s.end is None,
            final(world).extensions@[0] == Some(Extension(6)),
            final(world).types@[0] == Some(Type::Kill),
            final(world).parents@[0] is None,
            final(world).controls@[0] == Some(controls),
            final(tick).ticks == 0 && !final(tick).ticked && !final(tick).game_over,
            final(grid).wf(),
            final(grid).len == (GRID_X, GRID_Y),
            forall|x: int, y: int| final(grid).spec_get(x, y) is None,
            chain_ok(*final(world)),
            growth_ok(*final(world)),
            follower_inv(*final(world)),
    {
        // Reset any previous game state (in case the game is restarting).
        world.clear();
        *tick = Tick::default();
        *grid = Grid::new(GRID_X, GRID_Y);

        // Set up the snake.
        let _player1 = world.spawn(
            Some(Tile { x: (GRID_X / 2 - GRID_X / 4) as i32, y: (3 * GRID_Y / 4) as i32 }),
            Some(Direction::default()),
            Some(Snake { queued_direction: (0, -1), length: 1, end: None }),
            // Start the snake off with 7 pieces (head + 6 tail pieces).
            Some(Extension(6)),
            Some(Type::Kill),
            None,
            Some(controls),
        );
    }

    /// Creates one food entity at cell `(x, y)`: an edible, motionless
    /// occupant that enters the grid when the next movement pass runs.
    pub fn spawn_food(world: &mut World, x: i32, y: i32) -> (e: Entity)
        requires
            old(world).wf(),
            old(world).spec_len() < usize::MAX,
        ensures
            final(world).wf(),
            e == old(world).spec_len(),
            final(world).tiles@ == old(world).tiles@.push(Some(Tile { x, y })),
            final(world).directions@ == old(world).directions@.push(
                Some(Direction { direction: (0i8, 0i8), previous: None }),
            ),
            final(world).snakes@ == old(world).snakes@.push(None),
            final(world).extensions@ == old(world).extensions@.push(None),
            final(world).types@ == old(world).types@.push(Some(Type::Eat)),
            final(world).parents@ == old(world).parents@.push(None),
            final(world).controls@ == old(world).controls@.push(None),
    {
        world.spawn(
            Some(Tile { x, y }),
            Some(Direction { direction: (0, 0), previous: None }),
            None,
            None,
            Some(Type::Eat),
            None,
            None,
        )
    }

    /// The once-per-frame lifecycle update: every fiftieth tick, spawns a
    /// new food entity at a randomly drawn empty cell of the grid — a cell
    /// no entity occupies. When every cell is taken, or on any other frame,
    /// the world is untouched.
    pub fn update(&mut self, world: &mut World, grid: &Grid, tick: &Tick)
        requires
            old(world).wf(),
            old(world).spec_len() < usize::MAX,
            grid.wf(),
            grid.len.0 <= i32::MAX,
            grid.len.1 <= i32::MAX,
        ensures
            final(world).wf(),
            !(tick.ticked && (tick.ticks as int) % 50 == 0 && has_empty_cell(*grid)) ==> *final(world) == *old(world),
            (tick.ticked && (tick.ticks as int) % 50 == 0 && has_empty_cell(*grid)) ==> ({
                let w0 = *old(world);
                let wf = *final(world);
                let n = w0.spec_len();
                &&& wf.spec_len() == n + 1
                &&& (forall|e: int|
                    0 <= e < n ==> wf.tiles@[e] == w0.tiles@[e] && wf.directions@[e]
                        == w0.directions@[e] && wf.snakes@[e] == w0.snakes@[e]
                        && wf.extensions@[e] == w0.extensions@[e] && wf.types@[e] == w0.types@[e]
                        && wf.parents@[e] == w0.parents@[e] && wf.controls@[e] == w0.controls@[e])
                &&& wf.tiles@[n] matches Some(t) && grid.in_bounds(t.x as int, t.y as int)
                    && grid.spec_get(t.x as int, t.y as int) is None
                &&& wf.directions@[n] matches Some(d) && d.direction == (0i8, 0i8)
                    && d.previous is None
                &&& wf.types@[n] == Some(Type::Eat)
                &&& wf.snakes@[n] is None
                &&& wf.extensions@[n] is None
                &&& wf.parents@[n] is None
                &&& wf.controls@[n] is None
            }),
            chain_ok(*old(world)) ==> chain_ok(*final(world)),
            growth_ok(*old(world)) ==> growth_ok(*final(world)),
            follower_inv(*old(world)) ==> follower_inv(*final(world)),
    {
        let ghost w0 = *old(world);
        if tick.ticks % 50 == 0 && tick.ticked {
            // Gather the empty cells, so the random draw lands on one of
            // them — food never appears on top of an occupant.
            let mut empties: Vec<(usize, usize)> = Vec::new();
            let mut x: usize = 0;
            while x < grid.len.0
                invariant
                    grid.wf(),
                    x <= grid.len.0,
                    forall|k: int| #![auto]
                        0 <= k < empties@.len() ==> grid.in_bounds(
                            empties@[k].0 as int,
                            empties@[k].1 as int,
                        ) && grid.spec_get(empties@[k].0 as int, empties@[k].1 as int) is None,
                    forall|xi: int, yi: int| #![trigger grid.spec_get(xi, yi)]
                        0 <= xi < x && 0 <= yi < grid.len.1 && grid.spec_get(xi, yi) is None
                            ==> empties@.contains((xi as usize, yi as usize)),
                decreases grid.len.0 - x,
            {
                let mut y: usize = 0;
                while y < grid.len.1
                    invariant
                        grid.wf(),
                        x < grid.len.0,
                        y <= grid.len.1,
                        forall|k: int| #![auto]
                            0 <= k < empties@.len() ==> grid.in_bounds(
                                empties@[k].0 as int,
                                empties@[k].1 as int,
                            ) && grid.spec_get(empties@[k].0 as int, empties@[k].1 as int) is None,
                        forall|xi: int, yi: int| #![trigger grid.spec_get(xi, yi)]
                            ((0 <= xi < x && 0 <= yi < grid.len.1) || (xi == x && 0 <= yi < y))
                                && grid.spec_get(xi, yi) is None ==> empties@.contains(
                                ((xi as usize, yi as usize)),
                            ),
                    decreases grid.len.1 - y,
                {
                    let ghost before = empties@;
                    if grid.get(x, y).is_none() {
                        empties.push((x, y));
                        proof {
                            assert(empties@[before.len() as int] == (x, y));
                            assert(empties@.contains((x, y)));
                            assert forall|xi: int, yi: int| #![trigger grid.spec_get(xi, yi)]
                                ((0 <= xi < x && 0 <= yi < grid.len.1) || (xi == x && 0 <= yi < y
                                    + 1)) && grid.spec_get(xi, yi) is None implies empties@.contains(
                                ((xi as usize, yi as usize)),
                            ) by {
                                if !(xi == x && yi == y) {
                                    assert(before.contains((xi as usize, yi as usize)));
                                    let k = choose|k: int|
                                        0 <= k < before.len() && before[k] == (
                                        xi as usize,
                                        yi as usize,
                                        );
                                    assert(empties@[k] == (xi as usize, yi as usize));
                                }
                            }
                        }
                    } else {
                        proof {
                            assert forall|xi: int, yi: int| #![trigger grid.spec_get(xi, yi)]
                                ((0 <= xi < x && 0 <= yi < grid.len.1) || (xi == x && 0 <= yi < y
                                    + 1)) && grid.spec_get(xi, yi) is None implies empties@.contains(
                                ((xi as usize, yi as usize)),
                            ) by {
                            }
                        }
                    }
                    y = y + 1;
                }
                x = x + 1;
            }

            if empties.len() > 0 {
                proof {
                    assert(grid.spec_get(empties@[0].0 as int, empties@[0].1 as int) is None);
                    assert(has_empty_cell(*grid));
                }
                let k = random_below(empties.len());
                let cell = empties[k];
                Self::spawn_food(world, cell.0 as i32, cell.1 as i32);
            } else {
                proof {
                    assert forall|xi: int, yi: int| #![trigger grid.spec_get(xi, yi)]
                        grid.in_bounds(xi, yi) implies grid.spec_get(xi, yi) is Some by {
                        if grid.spec_get(xi, yi) is None {
                            assert(empties@.contains((xi as usize, yi as usize)));
                        }
                    }
                    assert(!has_empty_cell(*grid));
                }
            }
        }
        proof {
            let wf = *world;
            let n = w0.spec_len();
            if chain_ok(w0) {
                assert forall|e: int| #![trigger wf.parents@[e]]
                    0 <= e < wf.spec_len() && wf.has_parent(e) implies !wf.has_controls(e)
                    && wf.has_dir(e) && wf.has_tile(e) && wf.has_dir(wf.parent(e)) && wf.has_tile(
                    wf.parent(e),
                ) && (is_controlled(wf, wf.parent(e)) || wf.has_parent(wf.parent(e))) by {
                    assert(e < n && w0.parents@[e] is Some);
                }
            }
            if growth_ok(w0) {
                assert forall|e: int| #![trigger grows_this_tick(wf, e)]
                    0 <= e < wf.spec_len() && grows_this_tick(wf, e) implies is_controlled(
                    wf,
                    growth_source(wf, e),
                ) || wf.has_parent(growth_source(wf, e)) by {
                    assert(e < n && grows_this_tick(w0, e));
                }
            }
            if follower_inv(w0) {
                assert forall|e: int| #![trigger wf.parents@[e]]
                    0 <= e < wf.spec_len() && wf.has_parent(e) && wf.has_dir(e) && wf.has_tile(e)
                        && wf.has_dir(wf.parent(e)) && wf.has_tile(wf.parent(e)) implies wf.tile(
                    e,
                ).x as int == wf.tile(wf.parent(e)).x as int - wf.dir(
                    wf.parent(e),
                ).direction.0 as int && wf.tile(e).y as int == wf.tile(wf.parent(e)).y as int
                    - wf.dir(wf.parent(e)).direction.1 as int by {
                    assert(e < n && w0.parents@[e] is Some);
                }
            }
        }
    }
}

/// One simulation frame, in the fixed pass order the components rely on:
/// the tick clock first, then the control subsystem (queue, commit,
/// propagate, advance), then growth — all gated by the same tick flag
/// computed once for the frame. Returns the tick's collision outcomes and,
/// when due, the average frame time in microseconds.
pub fn run_frame(
    ticker: &mut TickSystem,
    controller: &mut ControllerSystem,
    extender: &mut ExtendSystem,
    tick: &mut Tick,
    world: &mut World,
    grid: &mut Grid,
    input: &InputState,
    delta_nanos: u32,
) -> (r: (Vec<Collision>, Option<u64>))
    requires
        old(ticker).wf(),
        old(tick).ticks < u64::MAX,
        old(world).wf(),
        old(grid).wf(),
        old(world).spec_len() + old(world).spec_len() <= usize::MAX,
        forall|e: int| #![auto]
            old(world).has_tile(e) ==> i32::MIN + 256 <= old(world).tile(e).x <= i32::MAX - 256
                && i32::MIN + 256 <= old(world).tile(e).y <= i32::MAX - 256,
        forall|e: int| #![auto] old(world).has_ext(e) ==> old(world).ext(e) >= 1,
        forall|e: int| #![auto]
            grows_this_tick(*old(world), e) ==> old(world).has_tile(
                growth_source(*old(world), e),
            ) && old(world).has_dir(growth_source(*old(world), e)),
    ensures
        final(ticker).wf(),
        final(world).wf(),
        final(grid).wf(),
        final(tick).game_over == old(tick).game_over,
        final(tick).ticks <= old(tick).ticks + 1,
        final(tick).ticked <==> old(ticker).accumulated(delta_nanos) >= TICK_RATE,
        final(tick).ticked ==> final(tick).ticks == old(tick).ticks + 1 && final(ticker).accumulator == 0,
        !final(tick).ticked ==> final(tick).ticks == old(tick).ticks && final(ticker).accumulator == old(ticker).accumulated(delta_nanos),
        final(ticker).current == (old(ticker).current + 1) % (FPS_SAMPLE as int),
        final(ticker).average_fps@ == old(ticker).average_fps@.update(
            old(ticker).current as int,
            (delta_nanos / 1000) as u64,
        ),
        r.1 matches Some(avg) ==> final(tick).ticked && avg == sample_sum(
            final(ticker).average_fps@,
        ) / (FPS_SAMPLE as int),
        r.1 is Some <==> (final(tick).ticked && (final(tick).ticks as int) % (3 * (
        TICKS_PER_SECOND as int)) == 0),
        final(tick).ticked ==> (exists|mid: World|
            #![trigger extend_run_post(mid, *final(world))]
            controller_run_post(*old(world), mid, *old(grid), *final(grid), *input, r.0@)
                && extend_run_post(mid, *final(world))),
        !final(tick).ticked ==> final(world).tiles == old(world).tiles && final(world).directions == old(world).directions && final(world).spec_len() == old(world).spec_len() && *final(grid) == *old(grid) && r.0@ == Seq::<Collision>::empty(),
        chain_ok(*old(world)) && growth_ok(*old(world)) && follower_inv(*old(world))
            ==> chain_ok(*final(world)) && follower_inv(*final(world)),
{
    let fps_report = ticker.run(delta_nanos, tick);

    let ghost w0 = *world;
    let events = controller.run(input, tick, grid, world);
    let ghost wc = *world;

    proof {
        // The control pass moves entities by at most one heading's worth and
        // never creates, removes or re-parents them, so every growth
        // candidate the growth pass will see is still a valid one.
        assert forall|e: int| #![auto] grows_this_tick(wc, e) implies wc.ext(e) >= 1
            && wc.has_tile(growth_source(wc, e)) && wc.has_dir(growth_source(wc, e)) && i32::MIN
            <= crate::extend::growth_x(wc, e) <= i32::MAX && i32::MIN <= crate::extend::growth_y(
            wc,
            e,
        ) <= i32::MAX by {
            assert(wc.extensions == w0.extensions);
            assert(w0.has_ext(e) && wc.ext(e) == w0.ext(e));
            assert(wc.snakes@[e] is Some);
            if is_controlled(w0, e) {
                assert(wc.snake(e).end == w0.snake(e).end);
            } else {
                assert(wc.snakes@[e] == w0.snakes@[e]);
            }
            assert(w0.has_snake(e) && wc.snake(e).end == w0.snake(e).end);
            let src = growth_source(wc, e);
            assert(src == growth_source(w0, e));
            assert(w0.has_tile(e) && w0.has_dir(e));
            assert(grows_this_tick(w0, e));
            assert(w0.has_tile(src) && w0.has_dir(src));
            assert(wc.directions@[src] is Some);
            assert(i32::MIN + 256 <= w0.tile(src).x <= i32::MAX - 256 && i32::MIN + 256
                <= w0.tile(src).y <= i32::MAX - 256);
            if tick.ticked {
                let wm = crate::controller::pre_move(w0, wc);
                assert(crate::controller::is_positioned(wm, src));
                assert(wc.tiles@[src] == Some(
                    Tile {
                        x: crate::controller::dest_x(wm, src) as i32,
                        y: crate::controller::dest_y(wm, src) as i32,
                    },
                ));
            } else {
                assert(wc.tiles@[src] == w0.tiles@[src]);
            }
        }
    }

    extender.run(tick, world);

    proof {
        if tick.ticked {
            assert(controller_run_post(w0, wc, *old(grid), *grid, *input, events@));
            assert(extend_run_post(wc, *world));
        }
        if chain_ok(w0) && growth_ok(w0) && follower_inv(w0) {
            if tick.ticked {
                assert(chain_ok(wc) && follower_inv(wc));
            } else {
                assert(wc.directions == w0.directions && wc.tiles == w0.tiles);
                assert forall|e: int| #![trigger wc.parents@[e]]
                    0 <= e < wc.spec_len() && wc.has_parent(e) && wc.has_dir(e) && wc.has_tile(e)
                        && wc.has_dir(wc.parent(e)) && wc.has_tile(wc.parent(e)) implies wc.tile(
                    e,
                ).x as int == wc.tile(wc.parent(e)).x as int - wc.dir(
                    wc.parent(e),
                ).direction.0 as int && wc.tile(e).y as int == wc.tile(wc.parent(e)).y as int
                    - wc.dir(wc.parent(e)).direction.1 as int by {
                    assert(w0.parents@[e] is Some);
                }
                assert(follower_inv(wc));
            }
            // The control pass keeps every growth candidate's tail end driven.
            assert forall|e: int| #![trigger grows_this_tick(wc, e)]
                0 <= e < wc.spec_len() && grows_this_tick(wc, e) implies is_controlled(
                wc,
                growth_source(wc, e),
            ) || wc.has_parent(growth_source(wc, e)) by {
                assert(wc.extensions == w0.extensions);
                assert(wc.snakes@[e] is Some);
                if is_controlled(w0, e) {
                    assert(wc.snake(e).end == w0.snake(e).end);
                } else {
                    assert(wc.snakes@[e] == w0.snakes@[e]);
                }
                assert(w0.has_ext(e) && w0.has_snake(e) && wc.snake(e).end == w0.snake(e).end);
                assert(wc.tiles@[e] is Some && wc.directions@[e] is Some);
                assert(w0.has_tile(e) && w0.has_dir(e));
                assert(grows_this_tick(w0, e));
                let src = growth_source(w0, e);
                assert(growth_source(wc, e) == src);
                assert(is_controlled(w0, src) || w0.has_parent(src));
                if is_controlled(w0, src) {
                    assert(wc.snakes@[src] is Some);
                    assert(wc.tiles@[src] is Some && wc.directions@[src] is Some);
                    assert(is_controlled(wc, src));
                }
            }
            assert(growth_ok(wc));
        }
    }

    (events, fps_report)
}

} // verus!
