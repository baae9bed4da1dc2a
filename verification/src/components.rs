//! The simulation's data: the tick counter, the occupancy grid, and the
//! per-entity attached data (position, heading, snake state, growth, parent
//! links, interaction kind, input bindings).

use vstd::arithmetic::mul::lemma_mul_nonnegative;
use vstd::prelude::*;

verus! {

/// Entities are opaque identifiers: indices into the per-kind data tables of
/// [`crate::world::World`].
pub type Entity = usize;

/// Process-wide tick state, written once per frame by the tick clock and read
/// by every other pass.
#[derive(Debug)]
pub struct Tick {
    /// How many ticks have happened so far.
    pub ticks: u64,

    /// Did a tick occur this frame.
    pub ticked: bool,

    /// Terminal-state signal: set by the caller when a kill collision should
    /// end the run.
    pub game_over: bool,
}

impl Default for Tick {
    /// A fresh tick state: no steps taken, none this frame, game running.
    fn default() -> (r: Self)
        ensures
            r.ticks == 0 && !r.ticked && !r.game_over,
    {
        Tick { ticks: 0, ticked: false, game_over: false }
    }
}

/// Grid of snake parts: each cell holds at most one occupying entity.
/// Out-of-bounds reads return nothing and out-of-bounds writes are ignored.
pub struct Grid {
    pub list: Vec<Option<Entity>>,
    pub len: (usize, usize),
}

impl Grid {
    /// The backing row-major store covers every in-bounds cell.
    pub open spec fn wf(self) -> bool {
        self.list@.len() == self.len.0 + self.len.1 * self.len.0
            && self.len.0 + self.len.1 * self.len.0 <= usize::MAX
    }

    /// Whether `(x, y)` is an in-bounds cell.
    pub open spec fn in_bounds(self, x: int, y: int) -> bool {
        0 <= x < self.len.0 && 0 <= y < self.len.1
    }

    /// The occupant of cell `(x, y)`; `None` when the cell is empty or out of
    /// bounds.
    pub open spec fn spec_get(self, x: int, y: int) -> Option<Entity> {
        if self.in_bounds(x, y) {
            self.list@[x + y * self.len.0]
        } else {
            None
        }
    }

    /// An empty grid of `x` columns by `y` rows.
    pub fn new(x: usize, y: usize) -> (g: Self)
        requires
            x + y * x <= usize::MAX,
        ensures
            g.wf(),
            g.len == (x, y),
            forall|xi: int, yi: int| g.spec_get(xi, yi) is None,
    {
        proof {
            lemma_mul_nonnegative(y as int, x as int);
        }
        let max: usize = x + y * x;
        let mut list: Vec<Option<Entity>> = Vec::with_capacity(max);

        let mut i: usize = 0;
        while i < max
            invariant
                i <= max,
                list@.len() == i,
                forall|j: int| 0 <= j < i ==> list@[j] is None,
            decreases max - i,
        {
            list.push(None);
            i = i + 1;
        }

        let g = Grid { list, len: (x, y) };
        proof {
            assert forall|xi: int, yi: int| g.spec_get(xi, yi) is None by {
                if g.in_bounds(xi, yi) {
                    lemma_cell_index_bounds(x as int, y as int, xi, yi);
                }
            }
        }
        g
    }

    fn bounds(&self, x: usize, y: usize) -> (r: bool)
        ensures
            r == self.in_bounds(x as int, y as int),
    {
        x < self.len.0 && y < self.len.1
    }

    fn index(&self, x: usize, y: usize) -> (r: usize)
        requires
            self.wf(),
            self.in_bounds(x as int, y as int),
        ensures
            r == x + y * self.len.0,
            r < self.list@.len(),
    {
        proof {
            lemma_mul_nonnegative(y as int, self.len.0 as int);
            lemma_cell_index_bounds(self.len.0 as int, self.len.1 as int, x as int, y as int);
        }
        x + (y * self.len.0)
    }

    /// The occupant of cell `(x, y)`, or `None` when empty or out of bounds.
    pub fn get(&self, x: usize, y: usize) -> (r: Option<Entity>)
        requires
            self.wf(),
        ensures
            r == self.spec_get(x as int, y as int),
    {
        if self.bounds(x, y) {
            self.list[self.index(x, y)]
        } else {
            None
        }
    }

    /// Sets cell `(x, y)` to `element`; ignored when out of bounds. No other
    /// cell changes.
    pub fn set(&mut self, x: usize, y: usize, element: Option<Entity>)
        requires
            old(self).wf(),
        ensures
            final(self).wf(),
            final(self).len == old(self).len,
            forall|xi: int, yi: int|
                final(self).spec_get(xi, yi) == (if xi == x as int && yi == y as int
                    && old(self).in_bounds(xi, yi) {
                    element
                } else {
                    old(self).spec_get(xi, yi)
                }),
    {
        if self.bounds(x, y) {
            let index = self.index(x, y);
            self.list.set(index, element);
            proof {
                let w = self.len.0 as int;
                let h = self.len.1 as int;
                assert forall|xi: int, yi: int|
                    final(self).spec_get(xi, yi) == (if xi == x as int && yi == y as int
                        && old(self).in_bounds(xi, yi) {
                        element
                    } else {
                        old(self).spec_get(xi, yi)
                    }) by {
                    if old(self).in_bounds(xi, yi) {
                        lemma_cell_index_bounds(w, h, xi, yi);
                        if xi + yi * w == x as int + y as int * w {
                            lemma_cell_index_injective(w, xi, yi, x as int, y as int);
                        }
                    }
                }
            }
        }
    }
}

/// A row-major cell index lies inside the backing store.
proof fn lemma_cell_index_bounds(w: int, h: int, x: int, y: int)
    requires
        0 <= x < w,
        0 <= y < h,
    ensures
        0 <= x + y * w < w + h * w,
{
    assert(x + y * w < w + h * w) by (nonlinear_arith)
        requires
            0 <= x < w,
            0 <= y < h,
    ;
}

/// Distinct in-bounds cells have distinct row-major indices.
proof fn lemma_cell_index_injective(w: int, x1: int, y1: int, x2: int, y2: int)
    requires
        0 <= x1 < w,
        0 <= x2 < w,
        x1 + y1 * w == x2 + y2 * w,
    ensures
        x1 == x2 && y1 == y2,
{
    assert(x1 == x2 && y1 == y2) by (nonlinear_arith)
        requires
            0 <= x1 < w,
            0 <= x2 < w,
            x1 + y1 * w == x2 + y2 * w,
    ;
}

/// Current and previous unit movement vector of an entity. `(0, 0)` is
/// reserved for newly spawned tail segments that have not yet moved;
/// `previous` is `None` until the first commit.
#[derive(Debug)]
pub struct Direction {
    pub direction: (i8, i8),
    pub previous: Option<(i8, i8)>,
}

impl Clone for Direction {
    /// An exact copy of the heading.
    fn clone(&self) -> (r: Self)
        ensures
            r.direction == self.direction && r.previous == self.previous,
    {
        Direction { direction: self.direction, previous: self.previous }
    }
}

impl Default for Direction {
    /// A fresh heading: moving right, with no history.
    fn default() -> (r: Self)
        ensures
            r.direction == (1i8, 0i8) && r.previous is None,
    {
        Direction { direction: (1, 0), previous: None }
    }
}

/// Input bindings for one snake: identifiers of the four logical buttons,
/// resolved against an [`InputState`] sampled once per frame.
pub struct Controls {
    pub left: usize,
    pub right: usize,
    pub up: usize,
    pub down: usize,
}

/// The sampled state of the input collaborator's buttons for one frame:
/// `held[b]` says whether logical button `b` is currently held.
pub struct InputState {
    pub held: Vec<bool>,
}

impl InputState {
    /// Whether button `b` is held; unknown buttons count as released.
    pub open spec fn spec_down(self, b: int) -> bool {
        0 <= b < self.held@.len() && self.held@[b]
    }

    /// Whether button `b` is currently held.
    pub fn button_down(&self, b: usize) -> (r: bool)
        ensures
            r == self.spec_down(b as int),
    {
        b < self.held.len() && self.held[b]
    }
}

/// Snake-head state: the heading queued for the next tick, the body length,
/// and a back-reference to the last body segment.
pub struct Snake {
    /// Which direction the snake will go next tick.
    pub queued_direction: (i8, i8),

    /// Length of the snake.
    pub length: u16,

    /// End of the snake (end of tail), once it has one.
    pub end: Option<Entity>,
}

/// Flags that the snake should be extended: how many tail segments it is
/// still owed, consumed one per tick.
pub struct Extension(pub u16);

/// Back-reference from a body segment to the entity immediately ahead of it
/// in the chain.
pub struct Parent(pub Entity);

/// Integer grid coordinates of an entity on the occupancy grid.
#[derive(Clone, Copy, Debug, PartialEq, Eq, Structural)]
pub struct Tile {
    pub x: i32,
    pub y: i32,
}

impl Default for Tile {
    /// The origin cell.
    fn default() -> (r: Self)
        ensures
            r.x == 0 && r.y == 0,
    {
        Tile { x: 0, y: 0 }
    }
}

/// Which kind of obstacle a grid occupant is: running into it either kills
/// the mover or feeds it.
#[derive(Clone, Copy, Debug, PartialEq, Eq, Structural)]
pub enum Type {
    Kill,
    Eat,
}

impl Default for Type {
    /// Obstacles kill unless tagged otherwise.
    fn default() -> (r: Self)
        ensures
            r == Type::Kill,
    {
        Type::Kill
    }
}

} // verus!
