//! Laws of the simulation, proved once and for all over the same
//! specification functions the executable passes are verified against: the
//! turn filter never lets a heading reverse, straight movement is linear in
//! the tick count, the vacate-then-claim discipline leaves the grid
//! consistent, and growth delivers exactly the owed number of segments.

use crate::components::{Grid, InputState};
use crate::controller::{controlled_result, dest_x, dest_y, final_cell, is_controlled,
    is_positioned, occupant_after_vacate, queued_choice, vacate_upto};
use crate::extend::{grown_result, grows_this_tick};
use crate::world::World;
use vstd::prelude::*;

verus! {

/// A nonzero unit heading: the only values the turn filter ever queues.
pub open spec fn is_unit(d: (i8, i8)) -> bool {
    d == (1i8, 0i8) || d == (-1i8, 0i8) || d == (0i8, 1i8) || d == (0i8, -1i8)
}

/// `d` points exactly opposite to `c`.
pub open spec fn reverses(d: (i8, i8), c: (i8, i8)) -> bool {
    d.0 as int == -(c.0 as int) && d.1 as int == -(c.1 as int)
}

/// One frame of input signals for a single snake, together with whether the
/// tick clock stepped that frame.
pub struct FrameInput {
    pub left: bool,
    pub right: bool,
    pub up: bool,
    pub down: bool,
    pub ticked: bool,
}

/// A snake's heading state: the committed heading and the queued one.
pub struct HeadingState {
    pub current: (i8, i8),
    pub queued: (i8, i8),
}

/// The state the control pass keeps every snake in: both headings are unit
/// vectors and the queued one never points opposite to the committed one.
pub open spec fn heading_inv(s: HeadingState) -> bool {
    is_unit(s.current) && is_unit(s.queued) && !reverses(s.queued, s.current)
}

/// What one frame of the control pass does to a snake's heading state: the
/// queued heading is refiltered against the committed one, and on a tick
/// boundary the queued heading is committed.
pub open spec fn frame_step(s: HeadingState, f: FrameInput) -> HeadingState {
    let q = queued_choice(f.left, f.right, f.up, f.down, s.current, s.queued);
    if f.ticked {
        HeadingState { current: q, queued: q }
    } else {
        HeadingState { current: s.current, queued: q }
    }
}

/// The heading state after a whole sequence of input frames.
pub open spec fn heading_after(s0: HeadingState, inputs: Seq<FrameInput>) -> HeadingState
    decreases inputs.len(),
{
    if inputs.len() == 0 {
        s0
    } else {
        frame_step(heading_after(s0, inputs.drop_last()), inputs.last())
    }
}

/// One frame keeps the heading invariant, and never turns the committed
/// heading into the exact opposite of what it was when the frame began.
pub proof fn lemma_frame_step_no_reversal(s: HeadingState, f: FrameInput)
    requires
        heading_inv(s),
    ensures
        heading_inv(frame_step(s, f)),
        !reverses(frame_step(s, f).current, s.current),
{
}

/// For every sequence of input frames — legal turns are the only ones the
/// filter lets through — a snake's heading invariant holds, and on no frame
/// does the committed heading become the exact opposite of the heading at
/// the start of that frame: an instant reversal is impossible.
pub proof fn lemma_no_reversal(s0: HeadingState, inputs: Seq<FrameInput>)
    requires
        heading_inv(s0),
    ensures
        heading_inv(heading_after(s0, inputs)),
        inputs.len() > 0 ==> !reverses(
            heading_after(s0, inputs).current,
            heading_after(s0, inputs.drop_last()).current,
        ),
    decreases inputs.len(),
{
    if inputs.len() > 0 {
        lemma_no_reversal(s0, inputs.drop_last());
        lemma_frame_step_no_reversal(heading_after(s0, inputs.drop_last()), inputs.last());
    }
}

/// The control pass drives every snake's heading state exactly by
/// `frame_step`: what the pass's contract says a controlled snake's committed
/// and queued headings become is one application of the step function the
/// laws above speak of.
pub proof fn lemma_controller_is_frame_step(
    w0: World,
    w1: World,
    input: InputState,
    ticked: bool,
    e: int,
)
    requires
        0 <= e < w0.spec_len(),
        is_controlled(w0, e),
        controlled_result(w0, w1, input, ticked, e),
    ensures
        (HeadingState {
            current: w1.dir(e).direction,
            queued: w1.snake(e).queued_direction,
        }) == frame_step(
            (HeadingState {
                current: w0.dir(e).direction,
                queued: w0.snake(e).queued_direction,
            }),
            (FrameInput {
                left: input.spec_down(w0.ctrl(e).left as int),
                right: input.spec_down(w0.ctrl(e).right as int),
                up: input.spec_down(w0.ctrl(e).up as int),
                down: input.spec_down(w0.ctrl(e).down as int),
                ticked: ticked,
            }),
        ),
{
}

/// With no turn signals asserted and nothing different queued, a frame
/// changes nothing: the premise under which a snake runs straight.
pub proof fn lemma_idle_frame_keeps_heading(s: HeadingState, f: FrameInput)
    requires
        !f.left && !f.right && !f.up && !f.down,
        s.queued == s.current,
    ensures
        (frame_step(s, f) == s),
{
}

/// Where a straight-moving head stands after `i` ticks: the start plus `i`
/// times the heading vector.
pub open spec fn straight_position(start: (int, int), d: (int, int), i: int) -> (int, int) {
    (start.0 + i * d.0, start.1 + i * d.1)
}

/// If a position advances by the same vector `d` on every step — as the
/// movement pass guarantees for a head whose queued heading never changes —
/// then after any number of steps it stands at its start plus that many
/// times `d`.
pub proof fn lemma_straight_path(positions: Seq<(int, int)>, d: (int, int))
    requires
        positions.len() >= 1,
        forall|i: int| #![trigger positions[i]]
            0 <= i < positions.len() - 1 ==> positions[i + 1].0 == positions[i].0 + d.0
                && positions[i + 1].1 == positions[i].1 + d.1,
    ensures
        forall|i: int| #![trigger positions[i]]
            0 <= i < positions.len() ==> positions[i] == straight_position(positions[0], d, i),
{
    assert forall|i: int| #![trigger positions[i]]
        0 <= i < positions.len() implies positions[i] == straight_position(
        positions[0],
        d,
        i,
    ) by {
        lemma_straight_path_at(positions, d, i);
    }
}

proof fn lemma_straight_path_at(positions: Seq<(int, int)>, d: (int, int), i: int)
    requires
        0 <= i < positions.len(),
        forall|j: int| #![trigger positions[j]]
            0 <= j < positions.len() - 1 ==> positions[j + 1].0 == positions[j].0 + d.0
                && positions[j + 1].1 == positions[j].1 + d.1,
    ensures
        positions[i] == straight_position(positions[0], d, i),
    decreases i,
{
    if i > 0 {
        lemma_straight_path_at(positions, d, i - 1);
        assert(i * d.0 == (i - 1) * d.0 + d.0) by (nonlinear_arith);
        assert(i * d.1 == (i - 1) * d.1 + d.1) by (nonlinear_arith);
        assert(positions[i].0 == positions[i - 1].0 + d.0 && positions[i].1 == positions[i
            - 1].1 + d.1);
    }
}

/// Every positioned entity's destination is distinct from every other's.
pub open spec fn distinct_destinations(w: World) -> bool {
    forall|a: int, b: int|
        0 <= a < w.spec_len() && 0 <= b < w.spec_len() && a != b && is_positioned(w, a)
            && is_positioned(w, b) ==> dest_x(w, a) != dest_x(w, b) || dest_y(w, a) != dest_y(
            w,
            b,
        )
}

/// The grid maps every occupied cell to an entity standing exactly there.
pub open spec fn cells_owned(w: World, g: Grid) -> bool {
    forall|x: int, y: int| #![trigger g.spec_get(x, y)]
        g.spec_get(x, y) matches Some(o) ==> 0 <= o < w.spec_len() && is_positioned(w, o as int)
            && w.tile(o as int).x == x && w.tile(o as int).y == y
}

proof fn lemma_claims_reach_mover(w: World, g: Grid, e: int, n: int)
    requires
        w.spec_len() <= usize::MAX,
        distinct_destinations(w),
        is_positioned(w, e),
        0 <= e < n <= w.spec_len(),
        g.in_bounds(dest_x(w, e), dest_y(w, e)),
    ensures
        final_cell(w, g, dest_x(w, e), dest_y(w, e), n) == Some(e as usize),
    decreases n,
{
    if n - 1 != e {
        lemma_claims_reach_mover(w, g, e, n - 1);
    }
}

proof fn lemma_claims_match_position(w: World, g: Grid, x: int, y: int, n: int)
    requires
        w.spec_len() <= usize::MAX,
        cells_owned(w, g),
        0 <= n <= w.spec_len(),
    ensures
        final_cell(w, g, x, y, n) matches Some(o) ==> 0 <= o < w.spec_len() && is_positioned(
            w,
            o as int,
        ) && dest_x(w, o as int) == x && dest_y(w, o as int) == y,
    decreases n,
{
    if n > 0 {
        lemma_claims_match_position(w, g, x, y, n - 1);
    } else {
        if occupant_after_vacate(w, g, x, y) is Some {
            let o = occupant_after_vacate(w, g, x, y)->0;
            assert(g.spec_get(x, y) == Some(o));
            assert(0 <= o < w.spec_len() && is_positioned(w, o as int) && w.tile(o as int).x == x
                && w.tile(o as int).y == y);
            assert(!crate::controller::is_leaving(w, o as int));
            assert(dest_x(w, o as int) == x && dest_y(w, o as int) == y);
        }
    }
}

/// Grid consistency after the movement pass: provided every positioned
/// entity heads to its own in-bounds cell, the vacate-then-claim discipline
/// leaves the grid mapping each entity's new cell back to that entity, and
/// every occupied cell to the one entity that now stands there — so no two
/// distinct entities are ever mapped from the same cell.
pub proof fn lemma_grid_consistency(w: World, g: Grid)
    requires
        w.spec_len() <= usize::MAX,
        distinct_destinations(w),
        cells_owned(w, g),
    ensures
        forall|e: int| #![auto]
            0 <= e < w.spec_len() && is_positioned(w, e) && g.in_bounds(
                dest_x(w, e),
                dest_y(w, e),
            ) ==> final_cell(w, g, dest_x(w, e), dest_y(w, e), w.spec_len()) == Some(e as usize),
        forall|x: int, y: int| #![trigger final_cell(w, g, x, y, w.spec_len())]
            final_cell(w, g, x, y, w.spec_len()) matches Some(o) ==> 0 <= o < w.spec_len()
                && is_positioned(w, o as int) && dest_x(w, o as int) == x && dest_y(w, o as int)
                == y,
{
    assert forall|e: int| #![auto]
        0 <= e < w.spec_len() && is_positioned(w, e) && g.in_bounds(
            dest_x(w, e),
            dest_y(w, e),
        ) implies final_cell(w, g, dest_x(w, e), dest_y(w, e), w.spec_len()) == Some(
        e as usize,
    ) by {
        lemma_claims_reach_mover(w, g, e, w.spec_len());
    }
    assert forall|x: int, y: int| #![trigger final_cell(w, g, x, y, w.spec_len())]
        (final_cell(w, g, x, y, w.spec_len()) matches Some(o) ==> 0 <= o < w.spec_len()
            && is_positioned(w, o as int) && dest_x(w, o as int) == x && dest_y(w, o as int)
            == y) by {
        lemma_claims_match_position(w, g, x, y, w.spec_len());
    }
}

/// A growing snake's abstract state: how many segments its body has, and
/// how many more it is still owed, if any.
pub struct GrowthState {
    pub body: int,
    pub remaining: Option<int>,
}

/// What one tick of the growth pass does to a snake that is owed segments:
/// exactly one segment is appended and the owed count goes down by one, the
/// marker disappearing when it reaches zero; a snake owed nothing is
/// untouched.
pub open spec fn growth_step(s: GrowthState) -> GrowthState {
    match s.remaining {
        Some(k) => if k > 1 {
            GrowthState { body: s.body + 1, remaining: Some(k - 1) }
        } else {
            GrowthState { body: s.body + 1, remaining: None }
        },
        None => s,
    }
}

/// The growth state after `t` ticks.
pub open spec fn growth_after(s0: GrowthState, t: nat) -> GrowthState
    decreases t,
{
    if t == 0 {
        s0
    } else {
        growth_step(growth_after(s0, (t - 1) as nat))
    }
}

/// The growth pass drives every owed snake's abstract state exactly by
/// `growth_step`: what the pass's contract says happens to a growing snake —
/// one appended segment, the owed count down by one, the marker gone at zero
/// — is one application of the step function `lemma_growth_completes` speaks
/// of.
pub proof fn lemma_extend_is_growth_step(w0: World, w1: World, e: int, body: int)
    requires
        0 <= e < w0.spec_len(),
        grows_this_tick(w0, e),
        w0.ext(e) >= 1,
        grown_result(w0, w1, e),
    ensures
        (growth_step(GrowthState { body: body, remaining: Some(w0.ext(e) as int) })
            == GrowthState {
            body: body + 1,
            remaining: if w1.extensions@[e] is Some {
                Some(w1.ext(e) as int)
            } else {
                None::<int>
            },
        }),
{
}

/// A snake owed `k` segments gains exactly one per tick until its body has
/// grown by `k`; after that no further segments are added and the
/// pending-growth marker is absent.
pub proof fn lemma_growth_completes(body0: int, k: int, t: nat)
    requires
        k >= 1,
    ensures
        t < k ==> growth_after(GrowthState { body: body0, remaining: Some(k) }, t)
            == (GrowthState { body: body0 + t, remaining: Some(k - t) }),
        t >= k ==> growth_after(GrowthState { body: body0, remaining: Some(k) }, t)
            == (GrowthState { body: body0 + k, remaining: None }),
    decreases t,
{
    if t > 0 {
        lemma_growth_completes(body0, k, (t - 1) as nat);
    }
}

} // verus!
