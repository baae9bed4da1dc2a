//! The per-frame control pass: samples each snake's input bindings and queues
//! a legal turn; on a tick boundary commits queued headings, propagates
//! headings down each parent chain, and advances every entity on the
//! occupancy grid, resolving collisions.

use crate::components::{Direction, Entity, Grid, InputState, Snake, Tick, Tile, Type};
use crate::world::World;
use vstd::prelude::*;

verus! {

/// One collision outcome signaled by the movement pass: `mover` stepped onto
/// the cell occupied by `other`, whose interaction kind is `kind`.
#[derive(Clone, Copy, Debug, PartialEq, Eq, Structural)]
pub struct Collision {
    pub mover: Entity,
    pub other: Entity,
    pub kind: Type,
}

/// The heading queued after one frame of input: the first asserted signal in
/// priority order left, right, up, down wins, unless it would reverse the
/// committed heading `cur`; otherwise the previous queued heading `q0` stays.
pub open spec fn queued_choice(
    left: bool,
    right: bool,
    up: bool,
    down: bool,
    cur: (i8, i8),
    q0: (i8, i8),
) -> (i8, i8) {
    if left && cur.0 != 1i8 {
        (-1i8, 0i8)
    } else if right && cur.0 != -1i8 {
        (1i8, 0i8)
    } else if up && cur.1 != 1i8 {
        (0i8, -1i8)
    } else if down && cur.1 != -1i8 {
        (0i8, 1i8)
    } else {
        q0
    }
}

/// An entity the control pass drives: it has a heading, snake state, a
/// position and input bindings.
pub open spec fn is_controlled(w: World, e: int) -> bool {
    w.has_dir(e) && w.has_snake(e) && w.has_tile(e) && w.has_controls(e)
}

/// The heading snake `e` has queued after sampling `input` this frame.
pub open spec fn new_queued(w: World, input: InputState, e: int) -> (i8, i8) {
    queued_choice(
        input.spec_down(w.ctrl(e).left as int),
        input.spec_down(w.ctrl(e).right as int),
        input.spec_down(w.ctrl(e).up as int),
        input.spec_down(w.ctrl(e).down as int),
        w.dir(e).direction,
        w.snake(e).queued_direction,
    )
}

/// What the control pass does to snake `e`: the queued heading is resampled
/// every frame, and on a tick boundary the queued heading is committed while
/// the old one is remembered. Entities that are not controlled are untouched.
pub open spec fn controlled_result(
    w0: World,
    w1: World,
    input: InputState,
    ticked: bool,
    e: int,
) -> bool {
    if is_controlled(w0, e) {
        &&& w1.snakes@[e] is Some
        &&& w1.snake(e).queued_direction == new_queued(w0, input, e)
        &&& w1.snake(e).length == w0.snake(e).length
        &&& w1.snake(e).end == w0.snake(e).end
        &&& w1.directions@[e] is Some
        &&& if ticked {
            w1.dir(e).direction == new_queued(w0, input, e) && w1.dir(e).previous == Some(
                w0.dir(e).direction,
            )
        } else {
            w1.directions@[e] == w0.directions@[e]
        }
    } else {
        w1.snakes@[e] == w0.snakes@[e] && w1.directions@[e] == w0.directions@[e]
    }
}

/// An entity that follows another: it has a parent link and a heading of its
/// own.
pub open spec fn is_follower(w: World, e: int) -> bool {
    w.has_parent(e) && w.has_dir(e)
}

/// What follower propagation does to entity `e`. A follower whose parent has
/// a heading remembers its own heading as previous and adopts the heading its
/// parent held before the parent's own commit this tick — which, because
/// parents are processed first, is the parent's `previous` in the final
/// state. A follower whose parent has lost its heading is skipped, and
/// non-followers are untouched.
pub open spec fn propagated_result(w0: World, w1: World, e: int) -> bool {
    if is_follower(w0, e) && w0.has_dir(w0.parent(e)) {
        &&& w1.directions@[e] is Some
        &&& w1.dir(e).previous == Some(w0.dir(e).direction)
        &&& w1.dir(e).direction == (match w1.dir(w0.parent(e)).previous {
            Some(prev) => prev,
            None => w0.dir(e).direction,
        })
    } else {
        w1.directions@[e] == w0.directions@[e]
    }
}

/// An entity that takes part in grid movement: it has a position and a
/// heading.
pub open spec fn is_positioned(w: World, e: int) -> bool {
    w.has_tile(e) && w.has_dir(e)
}

/// An entity that actually leaves its cell this tick: it is positioned and
/// its heading is not the resting `(0, 0)`.
pub open spec fn is_leaving(w: World, e: int) -> bool {
    is_positioned(w, e) && !(w.dir(e).direction.0 == 0i8 && w.dir(e).direction.1 == 0i8)
}

/// The column entity `e` moves to this tick.
pub open spec fn dest_x(w: World, e: int) -> int {
    w.tile(e).x + w.dir(e).direction.0
}

/// The row entity `e` moves to this tick.
pub open spec fn dest_y(w: World, e: int) -> int {
    w.tile(e).y + w.dir(e).direction.1
}

/// The occupant of cell `(x, y)` after the movers among the first `n`
/// entities have vacated their old cells: an occupant leaves if it is a
/// processed mover standing exactly there; everything else stays.
pub open spec fn vacate_upto(w: World, g: Grid, x: int, y: int, n: int) -> Option<Entity> {
    match g.spec_get(x, y) {
        Some(o) => if (o as int) < n && is_leaving(w, o as int) && w.tile(o as int).x == x
            && w.tile(o as int).y == y {
            None
        } else {
            Some(o)
        },
        None => None,
    }
}

/// The occupant of cell `(x, y)` once every mover has vacated its old cell:
/// what the collision resolver sees before any cell is claimed.
pub open spec fn occupant_after_vacate(w: World, g: Grid, x: int, y: int) -> Option<Entity> {
    vacate_upto(w, g, x, y, w.spec_len())
}

/// The collision snake `e` runs into this tick, if any: the destination
/// cell's post-vacate occupant, provided it is a different entity with an
/// interaction kind. Only snakes signal collisions.
pub open spec fn collision_at(w: World, g: Grid, e: int) -> Option<Collision> {
    if is_positioned(w, e) && w.has_snake(e) {
        match occupant_after_vacate(w, g, dest_x(w, e), dest_y(w, e)) {
            Some(other) => if other as int != e && w.has_kind(other as int) {
                Some(Collision { mover: e as usize, other, kind: w.kind(other as int) })
            } else {
                None
            },
            None => None,
        }
    } else {
        None
    }
}

/// The collision outcomes signaled by the first `n` entities, in entity
/// order, each at most once.
pub open spec fn events_upto(w: World, g: Grid, n: int) -> Seq<Collision>
    decreases n,
{
    if n <= 0 {
        Seq::empty()
    } else {
        events_upto(w, g, n - 1) + match collision_at(w, g, n - 1) {
            Some(c) => seq![c],
            None => Seq::empty(),
        }
    }
}

/// The occupant of cell `(x, y)` after the first `n` entities have claimed
/// their destination cells on top of the post-vacate grid; a later claimant
/// overwrites an earlier one, and out-of-bounds claims are ignored.
pub open spec fn final_cell(w: World, g: Grid, x: int, y: int, n: int) -> Option<Entity>
    decreases n,
{
    if n <= 0 {
        occupant_after_vacate(w, g, x, y)
    } else if is_positioned(w, n - 1) && dest_x(w, n - 1) == x && dest_y(w, n - 1) == y
        && g.in_bounds(x, y) {
        Some((n - 1) as usize)
    } else {
        final_cell(w, g, x, y, n - 1)
    }
}

/// The follower invariant: every body segment stands exactly one step
/// behind the entity ahead of it, against the direction that entity last
/// moved — so the body reproduces the leader's path with a one-tick lag.
pub open spec fn follower_inv(w: World) -> bool {
    forall|e: int| #![trigger w.parents@[e]]
        0 <= e < w.spec_len() && w.has_parent(e) && w.has_dir(e) && w.has_tile(e) && w.has_dir(
            w.parent(e),
        ) && w.has_tile(w.parent(e)) ==> w.tile(e).x as int == w.tile(w.parent(e)).x as int
            - w.dir(w.parent(e)).direction.0 as int && w.tile(e).y as int == w.tile(
            w.parent(e),
        ).y as int - w.dir(w.parent(e)).direction.1 as int
}

/// A well-formed parent chain: every follower carries a heading and a
/// position but no input bindings of its own, the entity ahead of it carries
/// a heading and a position too, and that entity is itself driven — either
/// directly by input or by its own parent — so its remembered heading is
/// refreshed every tick.
pub open spec fn chain_ok(w: World) -> bool {
    forall|e: int| #![trigger w.parents@[e]]
        0 <= e < w.spec_len() && w.has_parent(e) ==> !w.has_controls(e) && w.has_dir(e)
            && w.has_tile(e) && w.has_dir(w.parent(e)) && w.has_tile(w.parent(e)) && (
        is_controlled(w, w.parent(e)) || w.has_parent(w.parent(e)))
}

/// The world as the movement pass saw it: positions from before the move,
/// headings and snake state from after the commit and propagation phases.
pub open spec fn pre_move(w0: World, w1: World) -> World {
    World {
        tiles: w0.tiles,
        directions: w1.directions,
        snakes: w1.snakes,
        extensions: w1.extensions,
        types: w1.types,
        parents: w1.parents,
        controls: w1.controls,
    }
}

/// Everything one ticked frame of the control subsystem does, from the world
/// and grid it found (`w0`, `g0`) to the ones it left (`w1`, `g1`) and the
/// collision outcomes it signaled: queued headings resampled, heads
/// committed, followers retracing their parent's path, every positioned
/// entity stepped by its committed heading, and the grid rewritten by the
/// vacate-then-claim discipline.
pub open spec fn controller_run_post(
    w0: World,
    w1: World,
    g0: Grid,
    g1: Grid,
    input: InputState,
    events: Seq<Collision>,
) -> bool {
    let wm = pre_move(w0, w1);
    &&& w1.wf()
    &&& w1.spec_len() == w0.spec_len()
    &&& w1.extensions == w0.extensions
    &&& w1.types == w0.types
    &&& w1.parents == w0.parents
    &&& w1.controls == w0.controls
    &&& g1.wf()
    &&& g1.len == g0.len
    // The queued heading is resampled from the input bindings.
    &&& (forall|e: int|
        0 <= e < w0.spec_len() && is_controlled(w0, e) ==> w1.snakes@[e] is Some && w1.snake(
            e,
        ).queued_direction == new_queued(w0, input, e) && w1.snake(e).length == w0.snake(
            e,
        ).length && w1.snake(e).end == w0.snake(e).end)
    &&& (forall|e: int|
        0 <= e < w0.spec_len() && !is_controlled(w0, e) ==> w1.snakes@[e] == w0.snakes@[e])
    // No entity gains or loses its heading.
    &&& (forall|e: int|
        0 <= e < w0.spec_len() ==> (w1.directions@[e] is Some <==> w0.directions@[e] is Some))
    // Heads commit their queued heading and remember the old one.
    &&& (forall|e: int|
        0 <= e < w0.spec_len() && is_controlled(w0, e) && !(is_follower(w0, e) && w0.has_dir(
            w0.parent(e),
        )) ==> w1.directions@[e] is Some && w1.dir(e).direction == new_queued(w0, input, e)
            && w1.dir(e).previous == Some(w0.dir(e).direction))
    // Followers retrace their parent's path.
    &&& (forall|e: int|
        0 <= e < w0.spec_len() && is_follower(w0, e) && !is_controlled(w0, e) && w0.has_dir(
            w0.parent(e),
        ) ==> w1.directions@[e] is Some && w1.dir(e).previous == Some(w0.dir(e).direction)
            && w1.dir(e).direction == (match w1.dir(w0.parent(e)).previous {
            Some(prev) => prev,
            None => w0.dir(e).direction,
        }))
    // Everything else keeps its heading.
    &&& (forall|e: int|
        0 <= e < w0.spec_len() && !is_controlled(w0, e) && !(is_follower(w0, e) && w0.has_dir(
            w0.parent(e),
        )) ==> w1.directions@[e] == w0.directions@[e])
    // Every positioned entity stepped by its committed heading.
    &&& (forall|e: int|
        0 <= e < w0.spec_len() ==> w1.tiles@[e] == (if is_positioned(wm, e) {
            Some(Tile { x: dest_x(wm, e) as i32, y: dest_y(wm, e) as i32 })
        } else {
            w0.tiles@[e]
        }))
    // The tick's collision outcomes, one per colliding snake.
    &&& events == events_upto(wm, g0, w0.spec_len())
    // The grid holds exactly the vacate-then-claim result.
    &&& (forall|x: int, y: int| g1.spec_get(x, y) == final_cell(wm, g0, x, y, w0.spec_len()))
}

/// Picks the heading to queue from one frame of input signals.
fn choose_queued(left: bool, right: bool, up: bool, down: bool, cur: (i8, i8), q0: (i8, i8)) -> (q:
    (i8, i8))
    ensures
        q == queued_choice(left, right, up, down, cur, q0),
{
    if left && cur.0 != 1 {
        (-1, 0)
    } else if right && cur.0 != -1 {
        (1, 0)
    } else if up && cur.1 != 1 {
        (0, -1)
    } else if down && cur.1 != -1 {
        (0, 1)
    } else {
        q0
    }
}

/// Runs the whole control subsystem once per frame.
#[derive(Default)]
pub struct ControllerSystem;

impl ControllerSystem {
    /// The queue-then-commit pass: every frame each snake's input is sampled
    /// and a legal turn is queued; when `ticked`, the queued heading becomes
    /// the committed heading and the old heading is remembered as previous.
    pub fn control_snakes(world: &mut World, input: &InputState, ticked: bool)
        requires
            old(world).wf(),
        ensures
            final(world).wf(),
            final(world).spec_len() == old(world).spec_len(),
            final(world).tiles == old(world).tiles,
            final(world).extensions == old(world).extensions,
            final(world).types == old(world).types,
            final(world).parents == old(world).parents,
            final(world).controls == old(world).controls,
            !ticked ==> final(world).directions == old(world).directions,
            forall|e: int|
                0 <= e < old(world).spec_len() ==> controlled_result(
                    *old(world),
                    *final(world),
                    *input,
                    ticked,
                    e,
                ),
    {
        let n = world.len();
        let mut e: usize = 0;
        while e < n
            invariant
                world.wf(),
                n == world.spec_len(),
                e <= n,
                world.spec_len() == old(world).spec_len(),
                world.tiles == old(world).tiles,
                world.extensions == old(world).extensions,
                world.types == old(world).types,
                world.parents == old(world).parents,
                world.controls == old(world).controls,
                world.snakes@.len() == old(world).snakes@.len(),
                world.directions@.len() == old(world).directions@.len(),
                !ticked ==> world.directions == old(world).directions,
                forall|j: int|
                    0 <= j < e ==> controlled_result(*old(world), *world, *input, ticked, j),
                forall|j: int|
                    e <= j < world.spec_len() ==> world.snakes@[j] == old(world).snakes@[j]
                        && world.directions@[j] == old(world).directions@[j],
            decreases n - e,
        {
            let ghost entry = *world;
            let controlled = world.directions[e].is_some() && world.snakes[e].is_some()
                && world.tiles[e].is_some() && world.controls[e].is_some();
            if controlled {
                let left: bool;
                let right: bool;
                let up: bool;
                let down: bool;
                {
                    let c = world.controls[e].as_ref().unwrap();
                    left = input.button_down(c.left);
                    right = input.button_down(c.right);
                    up = input.button_down(c.up);
                    down = input.button_down(c.down);
                }
                let cur: (i8, i8) = world.directions[e].as_ref().unwrap().direction;
                let snake = world.snakes[e].as_ref().unwrap();
                let q = choose_queued(left, right, up, down, cur, snake.queued_direction);
                let length = snake.length;
                let end = snake.end;

                // Queue the direction for the next tick.
                world.snakes.set(e, Some(Snake { queued_direction: q, length, end }));

                if ticked {
                    // Update direction to the new queued direction.
                    world.directions.set(
                        e,
                        Some(Direction { direction: q, previous: Some(cur) }),
                    );
                }
            }
            proof {
                assert forall|j: int| 0 <= j < e + 1 implies controlled_result(
                    *old(world),
                    *world,
                    *input,
                    ticked,
                    j,
                ) by {
                    if j < e {
                        assert(controlled_result(*old(world), entry, *input, ticked, j));
                        assert(world.snakes@[j] == entry.snakes@[j]);
                        assert(world.directions@[j] == entry.directions@[j]);
                    }
                }
            }
            e = e + 1;
        }
    }

    /// The follower-propagation pass: on a tick boundary every body segment
    /// adopts the heading its parent held before the parent's own commit this
    /// tick, so the whole body retraces the path the entity ahead of it just
    /// vacated. Parents come before children in entity order, so a single
    /// forward sweep reads each parent's already-updated `previous`.
    pub fn propagate_followers(world: &mut World)
        requires
            old(world).wf(),
        ensures
            final(world).wf(),
            final(world).spec_len() == old(world).spec_len(),
            final(world).tiles == old(world).tiles,
            final(world).snakes == old(world).snakes,
            final(world).extensions == old(world).extensions,
            final(world).types == old(world).types,
            final(world).parents == old(world).parents,
            final(world).controls == old(world).controls,
            forall|e: int|
                0 <= e < old(world).spec_len() ==> propagated_result(
                    *old(world),
                    *final(world),
                    e,
                ),
    {
        let n = world.len();
        let mut e: usize = 0;
        while e < n
            invariant
                world.wf(),
                n == world.spec_len(),
                e <= n,
                world.spec_len() == old(world).spec_len(),
                world.tiles == old(world).tiles,
                world.snakes == old(world).snakes,
                world.extensions == old(world).extensions,
                world.types == old(world).types,
                world.parents == old(world).parents,
                world.controls == old(world).controls,
                world.directions@.len() == old(world).directions@.len(),
                forall|j: int| 0 <= j < e ==> propagated_result(*old(world), *world, j),
                forall|j: int|
                    e <= j < world.spec_len() ==> world.directions@[j] == old(world).directions@[j],
            decreases n - e,
        {
            let ghost entry = *world;
            if world.parents[e].is_some() && world.directions[e].is_some() {
                let p: Entity = world.parents[e].as_ref().unwrap().0;

                // Get the direction of the parent.
                let parent_direction: Option<Direction> = match &world.directions[p] {
                    Some(direction) => Some(direction.clone()),
                    None => None,
                };

                if let Some(parent_direction) = parent_direction {
                    let cur: (i8, i8) = world.directions[e].as_ref().unwrap().direction;

                    // Use the parent's previous direction so the follower
                    // retraces the path the parent took.
                    let adopted: (i8, i8) = match parent_direction.previous {
                        Some(previous) => previous,
                        None => cur,
                    };
                    world.directions.set(
                        e,
                        Some(Direction { direction: adopted, previous: Some(cur) }),
                    );
                }
            }
            proof {
                assert forall|j: int| 0 <= j < e + 1 implies propagated_result(
                    *old(world),
                    *world,
                    j,
                ) by {
                    if j < e {
                        assert(propagated_result(*old(world), entry, j));
                        assert(world.directions@[j] == entry.directions@[j]);
                        if is_follower(*old(world), j) && old(world).has_dir(
                            old(world).parent(j),
                        ) {
                            assert(world.directions@[old(world).parent(j)]
                                == entry.directions@[old(world).parent(j)]);
                        }
                    } else if old(world).has_parent(j) {
                        let p = old(world).parent(j);
                        assert(p < j);
                        assert(propagated_result(*old(world), entry, p));
                        assert(world.directions@[p] == entry.directions@[p]);
                    }
                }
            }
            e = e + 1;
        }
    }

    /// The tile-advance and collision pass. Three sub-passes over the
    /// entities, in order: every mover vacates its old cell (only if the cell
    /// still maps to it); every positioned entity steps by its heading while
    /// snakes inspect their destination's post-vacate occupant and signal at
    /// most one collision each; every positioned entity claims its new cell.
    /// Keeping the sub-passes separate means no mover's vacate can race
    /// another mover's claim within the same tick.
    pub fn advance_tiles(world: &mut World, grid: &mut Grid) -> (events: Vec<Collision>)
        requires
            old(world).wf(),
            old(grid).wf(),
            forall|e: int| #![auto]
                is_positioned(*old(world), e) ==> i32::MIN <= dest_x(*old(world), e) <= i32::MAX
                    && i32::MIN <= dest_y(*old(world), e) <= i32::MAX,
        ensures
            final(world).wf(),
            final(world).spec_len() == old(world).spec_len(),
            final(world).directions == old(world).directions,
            final(world).snakes == old(world).snakes,
            final(world).extensions == old(world).extensions,
            final(world).types == old(world).types,
            final(world).parents == old(world).parents,
            final(world).controls == old(world).controls,
            final(grid).wf(),
            final(grid).len == old(grid).len,
            forall|e: int|
                0 <= e < old(world).spec_len() ==> final(world).tiles@[e] == (
                if is_positioned(*old(world), e) {
                    Some(
                        Tile {
                            x: dest_x(*old(world), e) as i32,
                            y: dest_y(*old(world), e) as i32,
                        },
                    )
                } else {
                    old(world).tiles@[e]
                }),
            events@ == events_upto(*old(world), *old(grid), old(world).spec_len()),
            forall|x: int, y: int|
                final(grid).spec_get(x, y) == final_cell(
                    *old(world),
                    *old(grid),
                    x,
                    y,
                    old(world).spec_len(),
                ),
    {
        let n = world.len();

        // First sub-pass: every mover vacates the cell it is leaving, but
        // only if the grid still maps that cell to it.
        let mut e: usize = 0;
        while e < n
            invariant
                world.wf(),
                grid.wf(),
                n == world.spec_len(),
                e <= n,
                *world == *old(world),
                grid.len == old(grid).len,
                forall|x: int, y: int|
                    grid.spec_get(x, y) == vacate_upto(*old(world), *old(grid), x, y, e as int),
            decreases n - e,
        {
            let ghost gentry = *grid;
            if world.tiles[e].is_some() && world.directions[e].is_some() {
                let d: (i8, i8) = world.directions[e].as_ref().unwrap().direction;
                if !(d.0 == 0 && d.1 == 0) {
                    let t = world.tiles[e].as_ref().unwrap();
                    if t.x >= 0 && t.y >= 0 {
                        let cx = t.x as usize;
                        let cy = t.y as usize;
                        // Only clear the previous cell if it is actually this
                        // entity that sits in that piece of the grid.
                        if let Some(other) = grid.get(cx, cy) {
                            if other == e {
                                grid.set(cx, cy, None);
                            }
                        }
                    }
                }
            }
            proof {
                assert forall|x: int, y: int|
                    grid.spec_get(x, y) == vacate_upto(
                        *old(world),
                        *old(grid),
                        x,
                        y,
                        e + 1,
                    ) by {
                    assert(gentry.spec_get(x, y) == vacate_upto(
                        *old(world),
                        *old(grid),
                        x,
                        y,
                        e as int,
                    ));
                }
            }
            e = e + 1;
        }

        let ghost gvac = *grid;

        // Second sub-pass: move every positioned entity by its heading and
        // let snakes resolve what occupied their destination before any cell
        // is claimed.
        let mut events: Vec<Collision> = Vec::new();
        let mut e: usize = 0;
        while e < n
            invariant
                world.wf(),
                grid.wf(),
                n == world.spec_len(),
                e <= n,
                *grid == gvac,
                grid.len == old(grid).len,
                n == old(world).spec_len(),
                world.directions == old(world).directions,
                world.snakes == old(world).snakes,
                world.extensions == old(world).extensions,
                world.types == old(world).types,
                world.parents == old(world).parents,
                world.controls == old(world).controls,
                forall|x: int, y: int|
                    grid.spec_get(x, y) == occupant_after_vacate(*old(world), *old(grid), x, y),
                forall|j: int|
                    e <= j < n ==> world.tiles@[j] == old(world).tiles@[j],
                forall|j: int|
                    0 <= j < e ==> world.tiles@[j] == (if is_positioned(*old(world), j) {
                        Some(
                            Tile {
                                x: dest_x(*old(world), j) as i32,
                                y: dest_y(*old(world), j) as i32,
                            },
                        )
                    } else {
                        old(world).tiles@[j]
                    }),
                events@ == events_upto(*old(world), *old(grid), e as int),
                forall|e2: int| #![auto]
                    is_positioned(*old(world), e2) ==> i32::MIN <= dest_x(*old(world), e2)
                        <= i32::MAX && i32::MIN <= dest_y(*old(world), e2) <= i32::MAX,
            decreases n - e,
        {
            if world.tiles[e].is_some() && world.directions[e].is_some() {
                proof {
                    assert(is_positioned(*old(world), e as int));
                }
                let d: (i8, i8) = world.directions[e].as_ref().unwrap().direction;
                let t = world.tiles[e].as_ref().unwrap();
                let nx: i32 = t.x + d.0 as i32;
                let ny: i32 = t.y + d.1 as i32;

                // Only a snake resolves what its destination holds.
                if world.snakes[e].is_some() {
                    let mut occupant: Option<Entity> = None;
                    if nx >= 0 && ny >= 0 {
                        occupant = grid.get(nx as usize, ny as usize);
                    }
                    if let Some(other) = occupant {
                        if other != e && other < world.len() && world.types[other].is_some() {
                            let kind: Type = *world.types[other].as_ref().unwrap();
                            events.push(Collision { mover: e, other, kind });
                        }
                    }
                }

                world.tiles.set(e, Some(Tile { x: nx, y: ny }));
            }
            proof {
                assert(events_upto(*old(world), *old(grid), e + 1) == events_upto(
                    *old(world),
                    *old(grid),
                    e as int,
                ) + match collision_at(*old(world), gvac, e as int) {
                    Some(c) => seq![c],
                    None => Seq::empty(),
                });
                assert(events@ == events_upto(*old(world), *old(grid), e + 1));
            }
            e = e + 1;
        }

        // Third sub-pass: every positioned entity claims its new cell in the
        // grid; out-of-bounds destinations are ignored.
        let mut e: usize = 0;
        while e < n
            invariant
                world.wf(),
                grid.wf(),
                n == world.spec_len(),
                e <= n,
                grid.len == old(grid).len,
                n == old(world).spec_len(),
                world.directions == old(world).directions,
                world.snakes == old(world).snakes,
                world.extensions == old(world).extensions,
                world.types == old(world).types,
                world.parents == old(world).parents,
                world.controls == old(world).controls,
                forall|j: int|
                    0 <= j < n ==> world.tiles@[j] == (if is_positioned(*old(world), j) {
                        Some(
                            Tile {
                                x: dest_x(*old(world), j) as i32,
                                y: dest_y(*old(world), j) as i32,
                            },
                        )
                    } else {
                        old(world).tiles@[j]
                    }),
                forall|x: int, y: int|
                    grid.spec_get(x, y) == final_cell(*old(world), *old(grid), x, y, e as int),
                forall|e2: int| #![auto]
                    is_positioned(*old(world), e2) ==> i32::MIN <= dest_x(*old(world), e2)
                        <= i32::MAX && i32::MIN <= dest_y(*old(world), e2) <= i32::MAX,
            decreases n - e,
        {
            let ghost gentry = *grid;
            if world.tiles[e].is_some() && world.directions[e].is_some() {
                let t = world.tiles[e].as_ref().unwrap();
                if t.x >= 0 && t.y >= 0 {
                    // Add the entity to its new tile in the grid.
                    grid.set(t.x as usize, t.y as usize, Some(e));
                }
            }
            proof {
                let w0 = *old(world);
                let g0 = *old(grid);
                assert forall|x: int, y: int|
                    grid.spec_get(x, y) == final_cell(w0, g0, x, y, e + 1) by {
                    assert(gentry.spec_get(x, y) == final_cell(w0, g0, x, y, e as int));
                    if is_positioned(w0, e as int) {
                        assert(i32::MIN <= dest_x(w0, e as int) <= i32::MAX && i32::MIN
                            <= dest_y(w0, e as int) <= i32::MAX);
                        assert(world.tiles@[e as int] == Some(
                            Tile {
                                x: dest_x(w0, e as int) as i32,
                                y: dest_y(w0, e as int) as i32,
                            },
                        ));
                    }
                }
            }
            e = e + 1;
        }

        events
    }

    /// One frame of the control subsystem. Every frame each snake's queued
    /// heading is resampled from its input bindings; when the tick clock has
    /// stepped, queued headings are committed, followers adopt their parent's
    /// path, and every positioned entity advances on the grid, yielding the
    /// tick's collision outcomes.
    pub fn run(
        &mut self,
        input: &InputState,
        tick: &Tick,
        grid: &mut Grid,
        world: &mut World,
    ) -> (events: Vec<Collision>)
        requires
            old(world).wf(),
            old(grid).wf(),
            forall|e: int| #![auto]
                old(world).has_tile(e) ==> i32::MIN + 128 <= old(world).tile(e).x <= i32::MAX
                    - 128 && i32::MIN + 128 <= old(world).tile(e).y <= i32::MAX - 128,
        ensures
            final(world).wf(),
            final(world).spec_len() == old(world).spec_len(),
            final(world).extensions == old(world).extensions,
            final(world).types == old(world).types,
            final(world).parents == old(world).parents,
            final(world).controls == old(world).controls,
            final(grid).wf(),
            final(grid).len == old(grid).len,
            forall|e: int|
                0 <= e < old(world).spec_len() && is_controlled(*old(world), e)
                    ==> final(world).snakes@[e] is Some && final(world).snake(e).queued_direction
                    == new_queued(*old(world), *input, e) && final(world).snake(e).length == old(world).snake(e).length && final(world).snake(e).end == old(world).snake(e).end,
            forall|e: int|
                0 <= e < old(world).spec_len() && !is_controlled(*old(world), e) ==> final(world).snakes@[e] == old(world).snakes@[e],
            !tick.ticked ==> final(world).directions == old(world).directions && final(world).tiles == old(world).tiles && *final(grid) == *old(grid) && events@ == Seq::<
                Collision,
            >::empty(),
            forall|e: int|
                0 <= e < old(world).spec_len() ==> (final(world).directions@[e] is Some <==> old(
                    world,
                ).directions@[e] is Some),
            tick.ticked && chain_ok(*old(world)) && follower_inv(*old(world)) ==> follower_inv(
                *final(world),
            ),
            chain_ok(*old(world)) ==> chain_ok(*final(world)),
            tick.ticked ==> controller_run_post(
                *old(world),
                *final(world),
                *old(grid),
                *final(grid),
                *input,
                events@,
            ),
    {
        Self::control_snakes(world, input, tick.ticked);

        if tick.ticked {
            let ghost w0 = *old(world);
            let ghost w1 = *world;
            Self::propagate_followers(world);
            let ghost w2 = *world;
            proof {
                assert forall|e: int| #![auto] is_positioned(w2, e) implies i32::MIN <= dest_x(
                    w2,
                    e,
                ) <= i32::MAX && i32::MIN <= dest_y(w2, e) <= i32::MAX by {
                    assert(w2.tiles@[e] == w0.tiles@[e]);
                    assert(w0.has_tile(e));
                }
            }
            let events = Self::advance_tiles(world, grid);
            proof {
                let wf = *world;
                let wm = pre_move(w0, wf);
                assert(w2 == wm);
                assert forall|e: int|
                    0 <= e < w0.spec_len() && is_controlled(w0, e) implies wf.snakes@[e] is Some
                    && wf.snake(e).queued_direction == new_queued(w0, *input, e) && wf.snake(
                    e,
                ).length == w0.snake(e).length && wf.snake(e).end == w0.snake(e).end by {
                    assert(controlled_result(w0, w1, *input, true, e));
                }
                assert forall|e: int|
                    0 <= e < w0.spec_len() && !is_controlled(w0, e) implies wf.snakes@[e]
                    == w0.snakes@[e] by {
                    assert(controlled_result(w0, w1, *input, true, e));
                }
                assert forall|e: int|
                    0 <= e < w0.spec_len() && is_controlled(w0, e) && !(is_follower(w0, e)
                        && w0.has_dir(w0.parent(e))) implies wf.directions@[e] is Some && wf.dir(
                    e,
                ).direction == new_queued(w0, *input, e) && wf.dir(e).previous == Some(
                    w0.dir(e).direction,
                ) by {
                    assert(controlled_result(w0, w1, *input, true, e));
                    if is_follower(w0, e) {
                        assert(controlled_result(w0, w1, *input, true, w0.parent(e)));
                    }
                    assert(propagated_result(w1, w2, e));
                }
                assert forall|e: int|
                    0 <= e < w0.spec_len() && is_follower(w0, e) && !is_controlled(w0, e)
                        && w0.has_dir(w0.parent(e)) implies wf.directions@[e] is Some && wf.dir(
                    e,
                ).previous == Some(w0.dir(e).direction) && wf.dir(e).direction == (
                match wf.dir(w0.parent(e)).previous {
                    Some(prev) => prev,
                    None => w0.dir(e).direction,
                }) by {
                    let p = w0.parent(e);
                    assert(controlled_result(w0, w1, *input, true, e));
                    assert(controlled_result(w0, w1, *input, true, p));
                    assert(propagated_result(w1, w2, e));
                }
                assert forall|e: int|
                    0 <= e < w0.spec_len() && !is_controlled(w0, e) && !(is_follower(w0, e)
                        && w0.has_dir(w0.parent(e))) implies wf.directions@[e]
                    == w0.directions@[e] by {
                    assert(controlled_result(w0, w1, *input, true, e));
                    if is_follower(w0, e) {
                        let p = w0.parent(e);
                        assert(controlled_result(w0, w1, *input, true, p));
                    }
                    assert(propagated_result(w1, w2, e));
                }
                assert forall|e: int|
                    0 <= e < w0.spec_len() implies (wf.directions@[e] is Some
                    <==> w0.directions@[e] is Some) by {
                    assert(controlled_result(w0, w1, *input, true, e));
                    assert(propagated_result(w1, w2, e));
                }
                if chain_ok(w0) && follower_inv(w0) {
                    assert forall|e: int|
                        0 <= e < wf.spec_len() && wf.has_parent(e) && wf.has_dir(e) && wf.has_tile(
                            e,
                        ) && wf.has_dir(wf.parent(e)) && wf.has_tile(wf.parent(e)) implies wf.tile(
                        e,
                    ).x as int == wf.tile(wf.parent(e)).x as int - wf.dir(
                        wf.parent(e),
                    ).direction.0 as int && wf.tile(e).y as int == wf.tile(
                        wf.parent(e),
                    ).y as int - wf.dir(wf.parent(e)).direction.1 as int by {
                        let p = wf.parent(e);
                        assert(w0.parents@[e] is Some);
                        assert(w0.has_parent(e) && w0.parent(e) == p);
                        // The chain invariant at this link.
                        assert(!w0.has_controls(e) && w0.has_dir(e) && w0.has_tile(e)
                            && w0.has_dir(p) && w0.has_tile(p));
                        assert(is_controlled(w0, p) || w0.has_parent(p));
                        assert(is_follower(w0, e) && !is_controlled(w0, e));
                        // The entity ahead remembered the heading it just moved by.
                        if is_controlled(w0, p) {
                            assert(!w0.has_controls(p) || !w0.has_parent(p));
                            assert(!is_follower(w0, p));
                            assert(wf.dir(p).previous == Some(w0.dir(p).direction));
                        } else {
                            assert(w0.has_parent(p));
                            assert(!w0.has_controls(p) && w0.has_dir(w0.parent(p)));
                            assert(is_follower(w0, p) && !is_controlled(w0, p));
                            assert(wf.dir(p).previous == Some(w0.dir(p).direction));
                        }
                        // So the follower adopted exactly that heading.
                        assert(wf.dir(e).direction == w0.dir(p).direction);
                        // Both stepped by their committed headings.
                        assert(is_positioned(wm, e) && is_positioned(wm, p));
                        assert(i32::MIN + 128 <= w0.tile(e).x <= i32::MAX - 128 && i32::MIN
                            + 128 <= w0.tile(e).y <= i32::MAX - 128);
                        assert(i32::MIN + 128 <= w0.tile(p).x <= i32::MAX - 128 && i32::MIN
                            + 128 <= w0.tile(p).y <= i32::MAX - 128);
                        assert(wf.tiles@[e] == Some(
                            Tile { x: dest_x(wm, e) as i32, y: dest_y(wm, e) as i32 },
                        ));
                        assert(wf.tiles@[p] == Some(
                            Tile { x: dest_x(wm, p) as i32, y: dest_y(wm, p) as i32 },
                        ));
                        // One step behind before the tick, one step behind after it.
                        assert(w0.tile(e).x as int == w0.tile(p).x as int - w0.dir(
                            p,
                        ).direction.0 as int && w0.tile(e).y as int == w0.tile(p).y as int
                            - w0.dir(p).direction.1 as int);
                    }
                }
                if chain_ok(w0) {
                    assert forall|e: int|
                        0 <= e < wf.spec_len() && wf.has_parent(e) implies !wf.has_controls(e)
                        && wf.has_dir(e) && wf.has_tile(e) && wf.has_dir(wf.parent(e))
                        && wf.has_tile(wf.parent(e)) && (is_controlled(wf, wf.parent(e))
                        || wf.has_parent(wf.parent(e))) by {
                        let p = wf.parent(e);
                        assert(w0.parents@[e] is Some);
                        assert(w0.has_parent(e) && w0.parent(e) == p);
                        assert(!w0.has_controls(e) && w0.has_dir(e) && w0.has_tile(e)
                            && w0.has_dir(p) && w0.has_tile(p));
                        assert(wf.tiles@[e] is Some && wf.tiles@[p] is Some);
                        assert(wf.directions@[e] is Some && wf.directions@[p] is Some);
                        if is_controlled(w0, p) {
                            assert(wf.snakes@[p] is Some);
                            assert(is_controlled(wf, p));
                        }
                    }
                }
            }
            events
        } else {
            let events: Vec<Collision> = Vec::new();
            proof {
                let w0 = *old(world);
                let wf = *world;
                assert forall|e: int| 0 <= e < w0.spec_len() implies (is_controlled(w0, e)
                    ==> wf.snakes@[e] is Some && wf.snake(e).queued_direction == new_queued(
                    w0,
                    *input,
                    e,
                ) && wf.snake(e).length == w0.snake(e).length && wf.snake(e).end == w0.snake(
                    e,
                ).end) && (!is_controlled(w0, e) ==> wf.snakes@[e] == w0.snakes@[e]) by {
                    assert(controlled_result(w0, wf, *input, false, e));
                }
                assert forall|e: int|
                    0 <= e < w0.spec_len() implies (wf.directions@[e] is Some
                    <==> w0.directions@[e] is Some) by {
                    assert(controlled_result(w0, wf, *input, false, e));
                }
                if chain_ok(w0) {
                    assert forall|e: int|
                        0 <= e < wf.spec_len() && wf.has_parent(e) implies !wf.has_controls(e)
                        && wf.has_dir(e) && wf.has_tile(e) && wf.has_dir(wf.parent(e))
                        && wf.has_tile(wf.parent(e)) && (is_controlled(wf, wf.parent(e))
                        || wf.has_parent(wf.parent(e))) by {
                        let p = wf.parent(e);
                        assert(w0.parents@[e] is Some);
                        assert(w0.has_parent(e) && w0.parent(e) == p);
                        assert(!w0.has_controls(e) && w0.has_dir(e) && w0.has_tile(e)
                            && w0.has_dir(p) && w0.has_tile(p));
                        if is_controlled(w0, p) {
                            assert(controlled_result(w0, wf, *input, false, p));
                            assert(is_controlled(wf, p));
                        }
                    }
                }
            }
            events
        }
    }
}

} // verus!
