//! The island: the destructible target strip near the ceiling.  Its width
//! shrinks by a fixed step at every milestone score, floored at a minimum.

use crate::field::Field;
use vstd::prelude::*;

verus! {

/// Initial island width in subunits.
pub const ISLAND_WIDTH: i64 = 200_000_000;

/// Island height in subunits; fixed for the round.
pub const ISLAND_HEIGHT: i64 = 20_000_000;

/// The island's width never shrinks below this.
pub const ISLAND_MIN_WIDTH: i64 = 75_000_000;

/// How much width one milestone takes away.
pub const ISLAND_SHRINK: i64 = 5_000_000;

/// Gap between the ceiling and the island's top edge.
pub const ISLAND_CEILING_GAP: i64 = 10_000_000;

/// The island: centre position and current width.
#[derive(Clone, Copy, Debug, PartialEq, Eq, Structural)]
pub struct Island {
    pub x: i64,
    pub y: i64,
    pub width: i64,
}

/// Where a round start puts the island's centre ordinate.
pub open spec fn island_home_y(f: Field) -> int {
    f.half_height - ISLAND_HEIGHT / 2 - ISLAND_CEILING_GAP
}

/// An island in its place, with its width between the floor value and the
/// initial value.
pub open spec fn island_wf(isl: Island, f: Field) -> bool {
    &&& isl.x == 0
    &&& isl.y == island_home_y(f)
    &&& ISLAND_MIN_WIDTH <= isl.width <= ISLAND_WIDTH
}

/// Create the island at full width just under the ceiling, as a round
/// start does.
pub fn spawn_island(f: &Field) -> (isl: Island)
    requires
        f.wf(),
    ensures
        isl.x == 0,
        isl.y == island_home_y(*f),
        isl.width == ISLAND_WIDTH,
        island_wf(isl, *f),
{
    Island { x: 0, y: f.half_height - ISLAND_HEIGHT / 2 - ISLAND_CEILING_GAP, width: ISLAND_WIDTH }
}

/// The width after one milestone: one step narrower, floored.
pub open spec fn shrunk_width(w: int) -> int {
    if w - ISLAND_SHRINK >= ISLAND_MIN_WIDTH {
        w - ISLAND_SHRINK
    } else {
        ISLAND_MIN_WIDTH as int
    }
}

/// The width after `k` milestones, applied one at a time.
pub open spec fn shrunk_iter(w: int, k: nat) -> int
    decreases k,
{
    if k == 0 {
        w
    } else {
        shrunk_width(shrunk_iter(w, (k - 1) as nat))
    }
}

/// Law: `k` one-step shrinks amount to taking `k` steps at once, floored
/// once — so the width is non-increasing and bounded below.
pub proof fn lemma_shrunk_iter_closed(w: int, k: nat)
    requires
        w >= ISLAND_MIN_WIDTH,
    ensures
        shrunk_iter(w, k) == if w - k * ISLAND_SHRINK >= ISLAND_MIN_WIDTH {
            w - k * ISLAND_SHRINK
        } else {
            ISLAND_MIN_WIDTH as int
        },
        ISLAND_MIN_WIDTH <= shrunk_iter(w, k) <= w,
    decreases k,
{
    if k == 0 {
    } else {
        lemma_shrunk_iter_closed(w, (k - 1) as nat);
        assert((k - 1) as nat * ISLAND_SHRINK == k * ISLAND_SHRINK - ISLAND_SHRINK) by (nonlinear_arith)
            requires
                k >= 1,
        ;
    }
}

/// Narrow the island by one milestone step, floored at the minimum width.
pub fn shrink_island(isl: &mut Island)
    requires
        ISLAND_MIN_WIDTH <= old(isl).width,
    ensures
        final(isl).width == shrunk_width(old(isl).width as int),
        final(isl).x == old(isl).x,
        final(isl).y == old(isl).y,
{
    let narrowed: i64 = isl.width - ISLAND_SHRINK;
    isl.width = if narrowed >= ISLAND_MIN_WIDTH {
        narrowed
    } else {
        ISLAND_MIN_WIDTH
    };
}

} // verus!
