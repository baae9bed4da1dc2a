//! The growth pass: on a tick boundary, every snake still owed tail segments
//! synthesizes exactly one new tail entity, placed one cell behind its
//! current tail end, wires it into the parent chain and decrements the
//! remaining-growth counter until it is exhausted.

use crate::components::{Direction, Extension, Parent, Snake, Tick, Tile, Type};
use crate::controller::{chain_ok, follower_inv, is_controlled};
use crate::world::World;
use vstd::prelude::*;

verus! {

/// A snake that grows this tick: it has snake state, a pending extension,
/// and a position and heading of its own.
pub open spec fn grows_this_tick(w: World, e: int) -> bool {
    w.has_snake(e) && w.has_ext(e) && w.has_tile(e) && w.has_dir(e)
}

/// The entity a new tail segment is placed behind: the snake's tail end if
/// it has one, otherwise the head itself.
pub open spec fn growth_source(w: World, e: int) -> int {
    match w.snake(e).end {
        Some(c) => c as int,
        None => e,
    }
}

/// How many of the first `n` entities grow a segment this tick.
pub open spec fn grown_upto(w: World, n: int) -> int
    decreases n,
{
    if n <= 0 {
        0
    } else {
        grown_upto(w, n - 1) + if grows_this_tick(w, n - 1) {
            1int
        } else {
            0int
        }
    }
}

/// At most one segment per snake is appended per tick.
pub proof fn lemma_grown_upto_bounds(w: World, n: int)
    requires
        n >= 0,
    ensures
        0 <= grown_upto(w, n) <= n,
    decreases n,
{
    if n > 0 {
        lemma_grown_upto_bounds(w, n - 1);
    }
}

/// More entities can only ever grow more segments.
pub proof fn lemma_grown_upto_monotonic(w: World, a: int, b: int)
    requires
        a <= b,
    ensures
        grown_upto(w, a) <= grown_upto(w, b),
    decreases b - a,
{
    if a < b {
        lemma_grown_upto_monotonic(w, a, b - 1);
    }
}

/// Every growing snake's tail end is itself driven — directly by input or by
/// its own parent — so the segment appended behind it joins a live chain.
pub open spec fn growth_ok(w: World) -> bool {
    forall|e: int| #![trigger grows_this_tick(w, e)]
        0 <= e < w.spec_len() && grows_this_tick(w, e) ==> is_controlled(
            w,
            growth_source(w, e),
        ) || w.has_parent(growth_source(w, e))
}

/// Every index among the appended segments belongs to exactly one grower:
/// the `t`-th segment appended this tick belongs to the `j`-th growing snake.
pub proof fn lemma_find_grower(w: World, m: int, t: int)
    requires
        0 <= t < grown_upto(w, m),
    ensures
        exists|j: int| #![trigger grown_upto(w, j)]
            0 <= j < m && grows_this_tick(w, j) && grown_upto(w, j) == t,
    decreases m,
{
    if m > 0 {
        if t < grown_upto(w, m - 1) {
            lemma_find_grower(w, m - 1, t);
        } else {
            assert(grows_this_tick(w, m - 1) && grown_upto(w, m - 1) == t);
        }
    }
}

/// The column a new tail segment appears in: one step behind the tail end,
/// against the direction the tail end was last moving.
pub open spec fn growth_x(w: World, e: int) -> int {
    w.tile(growth_source(w, e)).x - w.dir(growth_source(w, e)).direction.0
}

/// The row a new tail segment appears in.
pub open spec fn growth_y(w: World, e: int) -> int {
    w.tile(growth_source(w, e)).y - w.dir(growth_source(w, e)).direction.1
}

/// What the growth pass does to a snake `e` that grows this tick, and to
/// the new tail entity it appends at index `w0.spec_len() + grown_upto(w0, e)`.
pub open spec fn grown_result(w0: World, w1: World, e: int) -> bool {
    let n = w0.spec_len();
    let idx = n + grown_upto(w0, e);
    let src = growth_source(w0, e);
    &&& w1.snakes@[e] is Some
    &&& w1.snake(e).end == Some(idx as usize)
    &&& w1.snake(e).queued_direction == w0.snake(e).queued_direction
    &&& w1.snake(e).length == w0.snake(e).length
    &&& (w0.ext(e) > 1 ==> w1.extensions@[e] is Some && w1.ext(e) == w0.ext(e) - 1)
    &&& (w0.ext(e) == 1 ==> w1.extensions@[e] is None)
    &&& w1.tiles@[idx] == Some(Tile { x: growth_x(w0, e) as i32, y: growth_y(w0, e) as i32 })
    &&& w1.directions@[idx] is Some
    &&& w1.dir(idx).direction == (0i8, 0i8)
    &&& w1.dir(idx).previous is None
    &&& w1.parents@[idx] == Some(Parent(src as usize))
    &&& w1.types@[idx] == Some(Type::Kill)
    &&& w1.snakes@[idx] is None
    &&& w1.extensions@[idx] is None
    &&& w1.controls@[idx] is None
}

/// Everything one ticked frame of the growth pass does, from the world it
/// found (`w0`) to the one it left (`w1`): one new tail entity per snake
/// still owed growth, every existing entity's position, heading, kind, links
/// and bindings untouched, and non-growing snakes left exactly as they were.
pub open spec fn extend_run_post(w0: World, w1: World) -> bool {
    let n = w0.spec_len();
    &&& w1.wf()
    &&& w1.spec_len() == n + grown_upto(w0, n)
    &&& (forall|e: int|
        0 <= e < n ==> w1.tiles@[e] == w0.tiles@[e] && w1.directions@[e] == w0.directions@[e]
            && w1.types@[e] == w0.types@[e] && w1.parents@[e] == w0.parents@[e]
            && w1.controls@[e] == w0.controls@[e])
    &&& (forall|e: int|
        0 <= e < n && !grows_this_tick(w0, e) ==> w1.snakes@[e] == w0.snakes@[e]
            && w1.extensions@[e] == w0.extensions@[e])
    &&& (forall|e: int| 0 <= e < n && grows_this_tick(w0, e) ==> grown_result(w0, w1, e))
}

/// Runs the growth pass once per frame.
#[derive(Default)]
pub struct ExtendSystem;

impl ExtendSystem {
    /// On a tick boundary, appends one tail entity per snake that still owes
    /// growth: the new segment copies the tail end's position shifted one
    /// cell back along its heading, starts with the resting heading `(0, 0)`
    /// and no history, is linked to the old tail end, and becomes the new
    /// tail end; the snake's remaining-growth counter decreases by one and
    /// the pending-growth marker disappears when it reaches zero.
    pub fn run(&mut self, tick: &Tick, world: &mut World)
        requires
            old(world).wf(),
            old(world).spec_len() + old(world).spec_len() <= usize::MAX,
            forall|e: int| #![auto]
                grows_this_tick(*old(world), e) ==> old(world).ext(e) >= 1 && old(world).has_tile(
                    growth_source(*old(world), e),
                ) && old(world).has_dir(growth_source(*old(world), e)) && i32::MIN <= growth_x(
                    *old(world),
                    e,
                ) <= i32::MAX && i32::MIN <= growth_y(*old(world), e) <= i32::MAX,
        ensures
            final(world).wf(),
            chain_ok(*old(world)) && growth_ok(*old(world)) ==> chain_ok(*final(world)),
            follower_inv(*old(world)) ==> follower_inv(*final(world)),
            !tick.ticked ==> *final(world) == *old(world),
            tick.ticked ==> extend_run_post(*old(world), *final(world)),
    {
        if !tick.ticked {
            return ;
        }
        let n = world.len();
        proof {
            lemma_grown_upto_bounds(*old(world), n as int);
        }
        let mut e: usize = 0;
        while e < n
            invariant
                world.wf(),
                e <= n,
                n == old(world).spec_len(),
                old(world).spec_len() + old(world).spec_len() <= usize::MAX,
                world.spec_len() == n + grown_upto(*old(world), e as int),
                forall|e2: int| #![auto]
                    grows_this_tick(*old(world), e2) ==> old(world).ext(e2) >= 1 && old(
                        world,
                    ).has_tile(growth_source(*old(world), e2)) && old(world).has_dir(
                        growth_source(*old(world), e2),
                    ) && i32::MIN <= growth_x(*old(world), e2) <= i32::MAX && i32::MIN <= growth_y(
                        *old(world),
                        e2,
                    ) <= i32::MAX,
                forall|j: int|
                    0 <= j < n ==> world.tiles@[j] == old(world).tiles@[j] && world.directions@[j]
                        == old(world).directions@[j] && world.types@[j] == old(world).types@[j]
                        && world.parents@[j] == old(world).parents@[j] && world.controls@[j] == old(
                        world,
                    ).controls@[j],
                forall|j: int|
                    e <= j < n ==> world.snakes@[j] == old(world).snakes@[j]
                        && world.extensions@[j] == old(world).extensions@[j],
                forall|j: int|
                    0 <= j < e && !grows_this_tick(*old(world), j) ==> world.snakes@[j] == old(
                        world,
                    ).snakes@[j] && world.extensions@[j] == old(world).extensions@[j],
                forall|j: int|
                    0 <= j < e && grows_this_tick(*old(world), j) ==> grown_result(
                        *old(world),
                        *world,
                        j,
                    ),
            decreases n - e,
        {
            let ghost entry = *world;
            proof {
                lemma_grown_upto_bounds(*old(world), e as int);
            }
            let grows = world.snakes[e].is_some() && world.extensions[e].is_some()
                && world.tiles[e].is_some() && world.directions[e].is_some();
            if grows {
                let snake_end = world.snakes[e].as_ref().unwrap().end;
                let current: usize = match snake_end {
                    Some(end) => end,
                    None => e,
                };
                proof {
                    assert(grows_this_tick(*old(world), e as int));
                    assert(growth_source(*old(world), e as int) == current as int);
                    assert(old(world).has_tile(current as int) && old(world).has_dir(
                        current as int,
                    ));
                    assert(world.tiles@[current as int] == old(world).tiles@[current as int]);
                    assert(world.directions@[current as int] == old(world).directions@[
                        current as int
                    ]);
                }

                let parent_tile: Tile = world.tiles[current].as_ref().unwrap().clone();
                let parent_direction: Direction = world.directions[
                    current
                ].as_ref().unwrap().clone();

                // Create the new tail entity one cell behind the tail end.
                let extend_entity = world.spawn(
                    Some(
                        Tile {
                            x: parent_tile.x - parent_direction.direction.0 as i32,
                            y: parent_tile.y - parent_direction.direction.1 as i32,
                        },
                    ),
                    Some(Direction { direction: (0, 0), previous: None }),
                    None,
                    None,
                    Some(Type::Kill),
                    Some(Parent(current)),
                    None,
                );

                // Count down the owed growth; the marker disappears at zero.
                let remaining = world.extensions[e].as_ref().unwrap().0;
                if remaining > 1 {
                    world.extensions.set(e, Some(Extension(remaining - 1)));
                } else {
                    world.extensions.set(e, None);
                }

                // The new entity becomes the snake's tail end.
                let queued = world.snakes[e].as_ref().unwrap().queued_direction;
                let length = world.snakes[e].as_ref().unwrap().length;
                world.snakes.set(
                    e,
                    Some(Snake { queued_direction: queued, length, end: Some(extend_entity) }),
                );
            }
            proof {
                assert(grown_upto(*old(world), e + 1) == grown_upto(*old(world), e as int) + if grows_this_tick(*old(world), e as int) {
                    1int
                } else {
                    0int
                });
                lemma_grown_upto_bounds(*old(world), e + 1);
                assert forall|j: int|
                    0 <= j < e + 1 && grows_this_tick(*old(world), j) implies grown_result(
                    *old(world),
                    *world,
                    j,
                ) by {
                    if j < e {
                        assert(grown_result(*old(world), entry, j));
                        lemma_grown_upto_bounds(*old(world), j);
                        lemma_grown_upto_monotonic(*old(world), j + 1, e as int);
                        assert(grown_upto(*old(world), j + 1) == grown_upto(*old(world), j) + if grows_this_tick(*old(world), j) {
                            1int
                        } else {
                            0int
                        });
                    } else if grows_this_tick(*old(world), j) {
                        let w0 = *old(world);
                        let idx = w0.spec_len() + grown_upto(w0, j);
                        assert(idx == entry.spec_len());
                        assert(world.tiles@[idx] == Some(
                            Tile { x: growth_x(w0, j) as i32, y: growth_y(w0, j) as i32 },
                        ));
                        assert(world.dir(idx).direction == (0i8, 0i8));
                        assert(world.dir(idx).previous is None);
                    }
                }
            }
            e = e + 1;
        }
        proof {
            let w0 = *old(world);
            let wf = *world;
            let nn = n as int;
            if chain_ok(w0) && growth_ok(w0) {
                assert forall|e2: int| #![trigger wf.parents@[e2]]
                    0 <= e2 < wf.spec_len() && wf.has_parent(e2) implies !wf.has_controls(e2)
                    && wf.has_dir(e2) && wf.has_tile(e2) && wf.has_dir(wf.parent(e2))
                    && wf.has_tile(wf.parent(e2)) && (is_controlled(wf, wf.parent(e2))
                    || wf.has_parent(wf.parent(e2))) by {
                    if e2 < nn {
                        let p = wf.parent(e2);
                        assert(w0.parents@[e2] is Some);
                        assert(w0.has_parent(e2) && w0.parent(e2) == p);
                        assert(!w0.has_controls(e2) && w0.has_dir(e2) && w0.has_tile(e2)
                            && w0.has_dir(p) && w0.has_tile(p));
                        if is_controlled(w0, p) {
                            if grows_this_tick(w0, p) {
                                assert(grown_result(w0, wf, p));
                            }
                            assert(is_controlled(wf, p));
                        } else {
                            assert(w0.has_parent(p));
                        }
                    } else {
                        let t = e2 - nn;
                        lemma_find_grower(w0, nn, t);
                        let j = choose|j: int|
                            0 <= j < nn && grows_this_tick(w0, j) && grown_upto(w0, j) == t;
                        assert(grown_result(w0, wf, j));
                        let src = growth_source(w0, j);
                        assert(wf.parents@[e2] == Some(Parent(src as usize)));
                        assert(is_controlled(w0, src) || w0.has_parent(src));
                        if is_controlled(w0, src) {
                            if grows_this_tick(w0, src) {
                                assert(grown_result(w0, wf, src));
                            }
                            assert(is_controlled(wf, src));
                        } else {
                            assert(w0.parents@[src] is Some);
                        }
                    }
                }
            }
            if follower_inv(w0) {
                assert forall|e2: int| #![trigger wf.parents@[e2]]
                    0 <= e2 < wf.spec_len() && wf.has_parent(e2) && wf.has_dir(e2) && wf.has_tile(
                        e2,
                    ) && wf.has_dir(wf.parent(e2)) && wf.has_tile(wf.parent(e2)) implies wf.tile(
                    e2,
                ).x as int == wf.tile(wf.parent(e2)).x as int - wf.dir(
                    wf.parent(e2),
                ).direction.0 as int && wf.tile(e2).y as int == wf.tile(
                    wf.parent(e2),
                ).y as int - wf.dir(wf.parent(e2)).direction.1 as int by {
                    let p = wf.parent(e2);
                    if e2 < nn {
                        assert(w0.parents@[e2] is Some);
                        assert(wf.tiles@[e2] == w0.tiles@[e2]);
                        assert(wf.tiles@[p] == w0.tiles@[p]);
                        assert(wf.directions@[p] == w0.directions@[p]);
                        assert(w0.tile(e2).x as int == w0.tile(p).x as int - w0.dir(
                            p,
                        ).direction.0 as int && w0.tile(e2).y as int == w0.tile(p).y as int
                            - w0.dir(p).direction.1 as int);
                    } else {
                        let t = e2 - nn;
                        lemma_find_grower(w0, nn, t);
                        let j = choose|j: int|
                            0 <= j < nn && grows_this_tick(w0, j) && grown_upto(w0, j) == t;
                        assert(grown_result(w0, wf, j));
                        let src = growth_source(w0, j);
                        assert(p == src);
                        assert(grows_this_tick(w0, j));
                        assert(i32::MIN <= growth_x(w0, j) <= i32::MAX && i32::MIN <= growth_y(
                            w0,
                            j,
                        ) <= i32::MAX);
                        assert(wf.tiles@[e2] == Some(
                            Tile { x: growth_x(w0, j) as i32, y: growth_y(w0, j) as i32 },
                        ));
                        assert(wf.tiles@[src] == w0.tiles@[src]);
                        assert(wf.directions@[src] == w0.directions@[src]);
                    }
                }
            }
        }
    }
}

} // verus!
