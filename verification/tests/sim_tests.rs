use snake::components::{Controls, Direction, Grid, InputState, Snake, Tick, Tile, Type};
use snake::controller::{Collision, ControllerSystem};
use snake::extend::ExtendSystem;
use snake::state::{run_frame, GameState};
use snake::tick::{TickSystem, FPS_SAMPLE, TICKS_PER_SECOND, TICK_RATE};
use snake::world::World;
use snake::{GRID_X, GRID_Y};

fn no_input() -> InputState {
    InputState { held: vec![false; 8] }
}

fn controls() -> Controls {
    Controls { left: 0, right: 1, up: 2, down: 3 }
}

fn spawn_head(world: &mut World, x: i32, y: i32, dir: (i8, i8), growth: u16) -> usize {
    world.spawn(
        Some(Tile { x, y }),
        Some(Direction { direction: dir, previous: None }),
        Some(Snake { queued_direction: dir, length: 1, end: None }),
        if growth > 0 { Some(snake::components::Extension(growth)) } else { None },
        Some(Type::Kill),
        None,
        Some(controls()),
    )
}

fn one_tick(
    ticker: &mut TickSystem,
    tick: &mut Tick,
    world: &mut World,
    grid: &mut Grid,
    input: &InputState,
) -> Vec<Collision> {
    let mut controller = ControllerSystem;
    let mut extender = ExtendSystem;
    let (events, _fps) = run_frame(
        ticker,
        &mut controller,
        &mut extender,
        tick,
        world,
        grid,
        input,
        TICK_RATE as u32,
    );
    assert!(tick.ticked);
    events
}

#[test]
fn grid_new_is_empty() {
    let grid = Grid::new(4, 3);
    assert_eq!(grid.len, (4, 3));
    for x in 0..4 {
        for y in 0..3 {
            assert_eq!(grid.get(x, y), None);
        }
    }
}

#[test]
fn grid_set_get_roundtrip() {
    let mut grid = Grid::new(5, 5);
    grid.set(2, 3, Some(7));
    assert_eq!(grid.get(2, 3), Some(7));
    assert_eq!(grid.get(3, 2), None);
    grid.set(2, 3, None);
    assert_eq!(grid.get(2, 3), None);
}

#[test]
fn grid_out_of_bounds_is_silent() {
    let mut grid = Grid::new(3, 3);
    grid.set(9, 9, Some(1));
    assert_eq!(grid.get(9, 9), None);
    assert_eq!(grid.get(3, 0), None);
    assert_eq!(grid.get(0, 3), None);
}

#[test]
fn input_state_button_down() {
    let input = InputState { held: vec![true, false] };
    assert!(input.button_down(0));
    assert!(!input.button_down(1));
    assert!(!input.button_down(5));
}

#[test]
fn tick_clock_steps_once_per_interval() {
    let mut ticker = TickSystem::default();
    let mut tick = Tick::default();
    let report = ticker.run(TICK_RATE as u32, &mut tick);
    assert!(tick.ticked);
    assert_eq!(tick.ticks, 1);
    assert_eq!(report, None);
}

// A long frame is clamped to exactly one step interval: at most one
// discrete step per evaluation, never a batch.
#[test]
fn tick_clock_clamps_long_frames() {
    let mut ticker = TickSystem::default();
    let mut tick = Tick::default();
    ticker.run(1_000_000_000, &mut tick);
    assert!(tick.ticked);
    assert_eq!(tick.ticks, 1);
    // The remainder of the long frame is discarded, not banked.
    ticker.run(0, &mut tick);
    assert!(!tick.ticked);
    assert_eq!(tick.ticks, 1);
}

#[test]
fn tick_clock_accumulates_short_frames() {
    let mut ticker = TickSystem::default();
    let mut tick = Tick::default();
    ticker.run(60_000_000, &mut tick);
    assert!(!tick.ticked);
    ticker.run(60_000_000, &mut tick);
    assert!(tick.ticked);
    assert_eq!(tick.ticks, 1);
}

#[test]
fn tick_clock_reports_average_every_three_seconds() {
    let mut ticker = TickSystem::default();
    let mut tick = Tick::default();
    let mut report = None;
    for _ in 0..(3 * TICKS_PER_SECOND) {
        report = ticker.run(TICK_RATE as u32, &mut tick);
    }
    assert_eq!(tick.ticks, 3 * TICKS_PER_SECOND);
    // Every sample is one interval long: the average is the interval in
    // microseconds.
    assert_eq!(report, Some(TICK_RATE / 1000));
    assert_eq!(FPS_SAMPLE, 20);
}

#[test]
fn turn_filter_rejects_reversal() {
    let mut world = World::new();
    let mut grid = Grid::new(12, 12);
    let head = spawn_head(&mut world, 5, 5, (1, 0), 0);
    let mut controller = ControllerSystem;
    // Press left while moving right: a 180-degree reversal, ignored.
    let input = InputState { held: vec![true, false, false, false] };
    let tick = Tick { ticks: 1, ticked: true, game_over: false };
    controller.run(&input, &tick, &mut grid, &mut world);
    let d = world.directions[head].as_ref().unwrap();
    assert_eq!(d.direction, (1, 0));
    assert_eq!(d.previous, Some((1, 0)));
}

#[test]
fn turn_filter_accepts_legal_turn() {
    let mut world = World::new();
    let mut grid = Grid::new(12, 12);
    let head = spawn_head(&mut world, 5, 5, (1, 0), 0);
    let mut controller = ControllerSystem;
    // Press up while moving right: a legal turn.
    let input = InputState { held: vec![false, false, true, false] };
    let tick = Tick { ticks: 1, ticked: true, game_over: false };
    controller.run(&input, &tick, &mut grid, &mut world);
    let d = world.directions[head].as_ref().unwrap();
    assert_eq!(d.direction, (0, -1));
    assert_eq!(d.previous, Some((1, 0)));
}

#[test]
fn turn_filter_priority_left_first() {
    let mut world = World::new();
    let mut grid = Grid::new(12, 12);
    let head = spawn_head(&mut world, 5, 5, (0, 1), 0);
    let mut controller = ControllerSystem;
    // All four signals at once while moving down: left wins.
    let input = InputState { held: vec![true, true, true, true] };
    let tick = Tick { ticks: 0, ticked: false, game_over: false };
    controller.run(&input, &tick, &mut grid, &mut world);
    assert_eq!(world.snakes[head].as_ref().unwrap().queued_direction, (-1, 0));
    // Not a tick boundary: the committed heading is untouched.
    assert_eq!(world.directions[head].as_ref().unwrap().direction, (0, 1));
}

#[test]
fn turn_filter_falls_through_to_next_signal() {
    let mut world = World::new();
    let mut grid = Grid::new(12, 12);
    let head = spawn_head(&mut world, 5, 5, (1, 0), 0);
    let mut controller = ControllerSystem;
    // Left is blocked (it would reverse), so the right signal wins instead.
    let input = InputState { held: vec![true, true, false, false] };
    let tick = Tick { ticks: 0, ticked: false, game_over: false };
    controller.run(&input, &tick, &mut grid, &mut world);
    assert_eq!(world.snakes[head].as_ref().unwrap().queued_direction, (1, 0));
}

// A parent link pointing at an entity without a heading fails soft: the
// follower keeps its own heading instead of faulting.
#[test]
fn propagation_skips_headingless_parent() {
    let mut world = World::new();
    let mut grid = Grid::new(12, 12);
    // A bare marker entity with no heading of its own.
    let marker = world.spawn(Some(Tile { x: 0, y: 0 }), None, None, None, None, None, None);
    let follower = world.spawn(
        Some(Tile { x: 1, y: 0 }),
        Some(Direction { direction: (0, 1), previous: None }),
        None,
        None,
        None,
        Some(snake::components::Parent(marker)),
        None,
    );
    let mut controller = ControllerSystem;
    let tick = Tick { ticks: 1, ticked: true, game_over: false };
    controller.run(&no_input(), &tick, &mut grid, &mut world);
    let d = world.directions[follower].as_ref().unwrap();
    assert_eq!(d.direction, (0, 1));
    assert_eq!(d.previous, None);
}

#[test]
fn queued_turn_survives_until_tick() {
    let mut world = World::new();
    let mut grid = Grid::new(12, 12);
    let head = spawn_head(&mut world, 5, 5, (1, 0), 0);
    let mut controller = ControllerSystem;
    // Queue a turn on a non-tick frame...
    let input = InputState { held: vec![false, false, true, false] };
    let tick = Tick { ticks: 0, ticked: false, game_over: false };
    controller.run(&input, &tick, &mut grid, &mut world);
    assert_eq!(world.snakes[head].as_ref().unwrap().queued_direction, (0, -1));
    // ...and commit it on the tick frame with no buttons held.
    let tick = Tick { ticks: 1, ticked: true, game_over: false };
    controller.run(&no_input(), &tick, &mut grid, &mut world);
    assert_eq!(world.directions[head].as_ref().unwrap().direction, (0, -1));
}

// After N ticks with no turns, the head stands at its start plus N times
// its heading vector.
#[test]
fn straight_run_is_linear() {
    let mut world = World::new();
    let mut grid = Grid::new(12, 12);
    let head = spawn_head(&mut world, 1, 7, (1, 0), 0);
    let mut ticker = TickSystem::default();
    let mut tick = Tick::default();
    let input = no_input();
    for n in 1..=5 {
        one_tick(&mut ticker, &mut tick, &mut world, &mut grid, &input);
        let t = world.tiles[head].as_ref().unwrap();
        assert_eq!((t.x, t.y), (1 + n, 7));
    }
}

// Growth: a snake owed k segments gains exactly one per tick until its
// body has grown by k; then the marker is gone and growth stops.
#[test]
fn growth_one_segment_per_tick() {
    let mut world = World::new();
    let mut grid = Grid::new(12, 12);
    let head = spawn_head(&mut world, 2, 6, (1, 0), 3);
    let mut ticker = TickSystem::default();
    let mut tick = Tick::default();
    let input = no_input();
    for n in 1..=3u16 {
        one_tick(&mut ticker, &mut tick, &mut world, &mut grid, &input);
        assert_eq!(world.len(), 1 + n as usize);
        if n < 3 {
            assert_eq!(world.extensions[head].as_ref().unwrap().0, 3 - n);
        } else {
            assert!(world.extensions[head].is_none());
        }
    }
    // No further segments once the owed growth is consumed.
    one_tick(&mut ticker, &mut tick, &mut world, &mut grid, &input);
    assert_eq!(world.len(), 4);
    assert!(world.extensions[head].is_none());
}

// The scenario of the specification: 12x12 grid, head at (6,9) heading
// (0,-1), six segments owed; after six ticks the body has seven segments
// occupying (6,9) through (6,3), each cell uniquely owned.
#[test]
fn seven_segment_column() {
    let mut world = World::new();
    let mut grid = Grid::new(12, 12);
    let head = spawn_head(&mut world, 6, 9, (0, -1), 6);
    let mut ticker = TickSystem::default();
    let mut tick = Tick::default();
    let input = no_input();
    for _ in 0..6 {
        one_tick(&mut ticker, &mut tick, &mut world, &mut grid, &input);
    }
    assert_eq!(world.len(), 7);
    assert!(world.extensions[head].is_none());
    // The head reached (6,3); each later entity stands one cell further back.
    for e in 0..7 {
        let t = world.tiles[e].as_ref().unwrap();
        assert_eq!((t.x, t.y), (6, 3 + e as i32));
    }
    // Every segment that has moved owns its cell in the grid; the newest
    // tail segment enters the grid on the next tick.
    for e in 0..6 {
        assert_eq!(grid.get(6, (3 + e) as usize), Some(e));
    }
    // The chain is wired head <- e1 <- ... <- e6.
    for e in 1..7 {
        assert_eq!(world.parents[e].as_ref().unwrap().0, e - 1);
    }
    assert_eq!(world.snakes[head].as_ref().unwrap().end, Some(6));
}

// Follower invariant: after any tick, each segment stands where its parent
// stood one tick earlier.
#[test]
fn followers_retrace_parent_path() {
    let mut world = World::new();
    let mut grid = Grid::new(12, 12);
    spawn_head(&mut world, 2, 6, (1, 0), 4);
    let mut ticker = TickSystem::default();
    let mut tick = Tick::default();
    // Walk with a few turns thrown in.
    let frames = [2usize, 3, 2, 3, 9, 9, 2, 9];
    let mut previous_positions: Vec<(i32, i32)> = Vec::new();
    for &button in frames.iter() {
        let mut held = vec![false; 8];
        if button < held.len() {
            held[button] = true;
        }
        let input = InputState { held };
        previous_positions = world
            .tiles
            .iter()
            .map(|t| t.as_ref().map(|t| (t.x, t.y)).unwrap_or((-1, -1)))
            .collect();
        one_tick(&mut ticker, &mut tick, &mut world, &mut grid, &input);
        for e in 0..world.len() {
            if let Some(parent) = world.parents[e].as_ref() {
                if parent.0 < previous_positions.len() {
                    let t = world.tiles[e].as_ref().unwrap();
                    assert_eq!(
                        (t.x, t.y),
                        previous_positions[parent.0],
                        "segment {} must stand where {} stood one tick ago",
                        e,
                        parent.0
                    );
                }
            }
        }
    }
}

// Grid consistency: after a tick in which all destinations are distinct,
// every moved entity's cell maps back to it.
#[test]
fn grid_maps_every_mover_back() {
    let mut world = World::new();
    let mut grid = Grid::new(12, 12);
    spawn_head(&mut world, 2, 2, (1, 0), 3);
    spawn_head(&mut world, 2, 8, (0, -1), 2);
    let mut ticker = TickSystem::default();
    let mut tick = Tick::default();
    let input = no_input();
    for _ in 0..4 {
        one_tick(&mut ticker, &mut tick, &mut world, &mut grid, &input);
    }
    // Every entity that has moved at least once owns its cell.
    for e in 0..world.len() {
        let t = world.tiles[e].as_ref().unwrap();
        let d = world.directions[e].as_ref().unwrap();
        if d.direction != (0, 0) {
            assert_eq!(grid.get(t.x as usize, t.y as usize), Some(e));
        }
    }
}

// Two heads racing for the same empty cell must not corrupt each other's
// vacate/claim bookkeeping of the cells they leave behind.
#[test]
fn two_heads_same_destination() {
    let mut world = World::new();
    let mut grid = Grid::new(12, 12);
    let a = spawn_head(&mut world, 4, 5, (1, 0), 0);
    let b = spawn_head(&mut world, 6, 5, (-1, 0), 0);
    grid.set(4, 5, Some(a));
    grid.set(6, 5, Some(b));
    let mut controller = ControllerSystem;
    let tick = Tick { ticks: 1, ticked: true, game_over: false };
    let events = controller.run(&no_input(), &tick, &mut grid, &mut world);
    // Both prior cells are cleanly vacated.
    assert_eq!(grid.get(4, 5), None);
    assert_eq!(grid.get(6, 5), None);
    // Both heads stand on the contested cell; the grid maps it to one of them.
    assert_eq!(world.tiles[a].as_ref().unwrap().x, 5);
    assert_eq!(world.tiles[b].as_ref().unwrap().x, 5);
    assert_eq!(grid.get(5, 5), Some(b));
    // The contested cell was empty after the vacate sub-pass: no outcome.
    assert!(events.is_empty());
}

// A head moving onto an Eat-tagged cell signals the eat outcome exactly
// once, and no kill outcome for the same move.
#[test]
fn eating_signals_once() {
    let mut world = World::new();
    let mut grid = Grid::new(12, 12);
    let head = spawn_head(&mut world, 3, 4, (1, 0), 0);
    let food = world.spawn(
        Some(Tile { x: 4, y: 4 }),
        Some(Direction { direction: (0, 0), previous: None }),
        None,
        None,
        Some(Type::Eat),
        None,
        None,
    );
    grid.set(3, 4, Some(head));
    grid.set(4, 4, Some(food));
    let mut controller = ControllerSystem;
    let tick = Tick { ticks: 1, ticked: true, game_over: false };
    let events = controller.run(&no_input(), &tick, &mut grid, &mut world);
    assert_eq!(events.len(), 1);
    assert_eq!(events[0], Collision { mover: head, other: food, kind: Type::Eat });
}

// Running into a killing obstacle signals the kill outcome.
#[test]
fn kill_collision_is_signaled() {
    let mut world = World::new();
    let mut grid = Grid::new(12, 12);
    let head = spawn_head(&mut world, 3, 4, (1, 0), 0);
    let wall = world.spawn(
        Some(Tile { x: 4, y: 4 }),
        Some(Direction { direction: (0, 0), previous: None }),
        None,
        None,
        Some(Type::Kill),
        None,
        None,
    );
    grid.set(4, 4, Some(wall));
    let mut controller = ControllerSystem;
    let tick = Tick { ticks: 1, ticked: true, game_over: false };
    let events = controller.run(&no_input(), &tick, &mut grid, &mut world);
    assert_eq!(events.len(), 1);
    assert_eq!(events[0], Collision { mover: head, other: wall, kind: Type::Kill });
}

#[test]
fn no_tick_no_movement() {
    let mut world = World::new();
    let mut grid = Grid::new(12, 12);
    let head = spawn_head(&mut world, 3, 4, (1, 0), 2);
    let mut controller = ControllerSystem;
    let mut extender = ExtendSystem;
    let tick = Tick { ticks: 0, ticked: false, game_over: false };
    let events = controller.run(&no_input(), &tick, &mut grid, &mut world);
    extender.run(&tick, &mut world);
    assert!(events.is_empty());
    let t = world.tiles[head].as_ref().unwrap();
    assert_eq!((t.x, t.y), (3, 4));
    assert_eq!(world.len(), 1);
}

#[test]
fn reset_spawns_the_player() {
    let mut world = World::new();
    let mut grid = Grid::new(1, 1);
    let mut tick = Tick { ticks: 99, ticked: true, game_over: true };
    let mut state = GameState;
    state.reset(&mut world, &mut grid, &mut tick, controls());
    assert_eq!(world.len(), 1);
    assert_eq!(grid.len, (GRID_X, GRID_Y));
    assert_eq!(tick.ticks, 0);
    assert!(!tick.ticked);
    assert!(!tick.game_over);
    let t = world.tiles[0].as_ref().unwrap();
    assert_eq!((t.x, t.y), ((GRID_X / 2 - GRID_X / 4) as i32, (3 * GRID_Y / 4) as i32));
    let s = world.snakes[0].as_ref().unwrap();
    assert_eq!(s.queued_direction, (0, -1));
    assert_eq!(s.length, 1);
    assert_eq!(s.end, None);
    assert_eq!(world.extensions[0].as_ref().unwrap().0, 6);
    let d = world.directions[0].as_ref().unwrap();
    assert_eq!(d.direction, (1, 0));
    assert_eq!(d.previous, None);
}

// Food appears on every fiftieth tick, inside the grid; the randomly drawn
// cell is always in range.
#[test]
fn food_spawns_in_range() {
    let mut state = GameState;
    for _ in 0..32 {
        let mut world = World::new();
        let grid = Grid::new(12, 12);
        let tick = Tick { ticks: 50, ticked: true, game_over: false };
        state.update(&mut world, &grid, &tick);
        assert_eq!(world.len(), 1);
        let t = world.tiles[0].as_ref().unwrap();
        assert!(0 <= t.x && t.x < 12, "food x {} out of range", t.x);
        assert!(0 <= t.y && t.y < 12, "food y {} out of range", t.y);
        assert_eq!(world.types[0], Some(Type::Eat));
        assert!(world.snakes[0].is_none());
    }
}

// Food appears only on an empty cell: with a single free cell left, the
// draw must land exactly there.
#[test]
fn food_lands_on_the_free_cell() {
    let mut state = GameState;
    for _ in 0..8 {
        let mut world = World::new();
        let mut grid = Grid::new(3, 3);
        let mut id = 0usize;
        for x in 0..3 {
            for y in 0..3 {
                if !(x == 1 && y == 2) {
                    grid.set(x, y, Some(id));
                    id += 1;
                }
            }
        }
        let tick = Tick { ticks: 50, ticked: true, game_over: false };
        state.update(&mut world, &grid, &tick);
        assert_eq!(world.len(), 1);
        let t = world.tiles[0].as_ref().unwrap();
        assert_eq!((t.x, t.y), (1, 2));
    }
}

// With every cell occupied there is nowhere to put food: nothing spawns.
#[test]
fn full_grid_spawns_no_food() {
    let mut state = GameState;
    let mut world = World::new();
    let mut grid = Grid::new(2, 2);
    for x in 0..2 {
        for y in 0..2 {
            grid.set(x, y, Some(x * 2 + y));
        }
    }
    let tick = Tick { ticks: 100, ticked: true, game_over: false };
    state.update(&mut world, &grid, &tick);
    assert_eq!(world.len(), 0);
}

#[test]
fn food_waits_for_fiftieth_tick() {
    let mut state = GameState;
    let mut world = World::new();
    let grid = Grid::new(12, 12);
    state.update(&mut world, &grid, &Tick { ticks: 49, ticked: true, game_over: false });
    assert_eq!(world.len(), 0);
    state.update(&mut world, &grid, &Tick { ticks: 50, ticked: false, game_over: false });
    assert_eq!(world.len(), 0);
}

// The full reset-then-play loop: the snake from reset grows to its full
// seven segments and keeps following its own path.
#[test]
fn reset_and_play() {
    let mut world = World::new();
    let mut grid = Grid::new(1, 1);
    let mut tick = Tick::default();
    let mut state = GameState;
    state.reset(&mut world, &mut grid, &mut tick, controls());
    let mut ticker = TickSystem::default();
    let input = no_input();
    for _ in 0..8 {
        one_tick(&mut ticker, &mut tick, &mut world, &mut grid, &input);
    }
    assert_eq!(world.len(), 7);
    assert!(world.extensions[0].is_none());
    // The queued (0,-1) took over on the first tick: the head went straight up.
    let t = world.tiles[0].as_ref().unwrap();
    assert_eq!((t.x, t.y), (3, 1));
}
