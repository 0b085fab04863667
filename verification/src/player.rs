//! The paddle: a player-controlled horizontal actuator with a fixed size,
//! clamped to the field.

use crate::field::Field;
use vstd::prelude::*;

verus! {

/// Paddle width in subunits.
pub const PLAYER_WIDTH: i64 = 100_000_000;

/// Paddle height in subunits.
pub const PLAYER_HEIGHT: i64 = 15_000_000;

/// Keyboard paddle speed, in subunits per millisecond.  The crate itself
/// only consumes a resolved displacement; this constant is for callers
/// that turn held keys into one.
pub const PLAYER_SPEED: i64 = 400_000;

/// Largest paddle displacement accepted per frame.
pub const PLAYER_DELTA_MAX: i64 = 1_000_000_000_000_000;

/// The paddle: centre abscissa and baseline ordinate.  Its extent is
/// `PLAYER_WIDTH` by `PLAYER_HEIGHT`; the top face, the one the ball can
/// touch, lies at `y + PLAYER_HEIGHT / 2`.
#[derive(Clone, Copy, Debug, PartialEq, Eq, Structural)]
pub struct Paddle {
    pub x: i64,
    pub y: i64,
}

/// Leftmost centre position the clamp allows.
pub open spec fn paddle_min_x(f: Field) -> int {
    -f.half_width + PLAYER_WIDTH / 2
}

/// Rightmost centre position the clamp allows.
pub open spec fn paddle_max_x(f: Field) -> int {
    f.half_width - PLAYER_WIDTH / 2
}

/// A paddle in its place: clamped horizontally, resting just above the
/// floor.
pub open spec fn paddle_wf(p: Paddle, f: Field) -> bool {
    &&& paddle_min_x(f) <= p.x <= paddle_max_x(f)
    &&& p.y == -f.half_height + PLAYER_HEIGHT
}

/// Create the paddle at the field's bottom centre, as a round start does.
pub fn spawn_player(f: &Field) -> (p: Paddle)
    requires
        f.wf(),
    ensures
        p.x == 0,
        p.y == -f.half_height + PLAYER_HEIGHT,
        paddle_wf(p, *f),
{
    Paddle { x: 0, y: -f.half_height + PLAYER_HEIGHT }
}

/// Where a displaced paddle ends up: moved, then clamped to the field.
pub open spec fn clamped_x(x: int, f: Field) -> int {
    if x < paddle_min_x(f) {
        paddle_min_x(f)
    } else if x > paddle_max_x(f) {
        paddle_max_x(f)
    } else {
        x
    }
}

/// Apply one frame's resolved horizontal displacement to the paddle and
/// clamp it to the field.
pub fn update_player(p: &mut Paddle, delta: i64, f: &Field)
    requires
        f.wf(),
        paddle_wf(*old(p), *f),
        -PLAYER_DELTA_MAX <= delta <= PLAYER_DELTA_MAX,
    ensures
        final(p).x == clamped_x(old(p).x + delta, *f),
        final(p).y == old(p).y,
        paddle_wf(*final(p), *f),
{
    let min_x: i64 = -f.half_width + PLAYER_WIDTH / 2;
    let max_x: i64 = f.half_width - PLAYER_WIDTH / 2;
    let moved: i64 = p.x + delta;
    p.x = if moved < min_x {
        min_x
    } else if moved > max_x {
        max_x
    } else {
        moved
    };
}

} // verus!
