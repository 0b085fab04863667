//! Balls: circular bodies with a position and a velocity, integrated with
//! simple Euler steps and resolved against the walls, the paddle and the
//! island with force-correct rules (a collision sets a velocity
//! component's sign outright rather than mirroring the incoming angle).
//!
//! Lengths are subunits, velocities subunits per millisecond, time
//! milliseconds.

use crate::field::Field;
use crate::island::{
    island_wf, shrunk_iter, Island, ISLAND_HEIGHT, ISLAND_MIN_WIDTH, ISLAND_SHRINK,
};
use crate::player::{Paddle, PLAYER_HEIGHT, PLAYER_WIDTH};
use crate::score::Score;
use crate::sqrt::{is_sqrt_floor, isqrt, lemma_sqrt_floor_exists, lemma_sqrt_floor_unique, sqrt_floor};
use vstd::arithmetic::div_mod::{
    lemma_div_is_ordered, lemma_div_is_ordered_by_denominator, lemma_div_multiples_vanish,
    lemma_div_pos_is_pos,
};
use vstd::arithmetic::mul::lemma_mul_inequality;
use vstd::prelude::*;

verus! {

/// Ball radius in subunits; shared by every ball.
pub const BALL_RADIUS: i64 = 12_000_000;

/// Serve speed of a round's first ball, in subunits per millisecond.
pub const BALL_SPEED: i64 = 450_000;

/// Cap on the magnitude of each velocity component; milestone speed-ups
/// saturate here so that motion arithmetic stays within machine bounds.
pub const VEL_CAP: i64 = 1_000_000_000;

/// Longest frame the integrator accepts, in milliseconds.
pub const DT_MAX: i64 = 1_000_000;

/// How far below the ceiling a new ball is served.
pub const SERVE_DROP: i64 = 3 * ISLAND_HEIGHT;

/// A moving ball.
#[derive(Clone, Copy, Debug, PartialEq, Eq, Structural)]
pub struct Ball {
    pub x: i64,
    pub y: i64,
    pub vx: i64,
    pub vy: i64,
}

/// Magnitude of a velocity component.
pub open spec fn vabs(v: i64) -> i64 {
    if v >= 0 {
        v
    } else {
        (-(v as int)) as i64
    }
}

/// Both velocity components within the cap.
pub open spec fn vel_ok(b: Ball) -> bool {
    &&& -VEL_CAP <= b.vx <= VEL_CAP
    &&& -VEL_CAP <= b.vy <= VEL_CAP
}

/// How far a ball can ever stand from the vertical axis: the wall, plus
/// its radius, plus one frame's worth of travel.
pub open spec fn x_limit(f: Field) -> int {
    f.half_width + BALL_RADIUS + VEL_CAP * DT_MAX
}

/// The matching bound on the distance from the horizontal axis.
pub open spec fn y_limit(f: Field) -> int {
    f.half_height + BALL_RADIUS + VEL_CAP * DT_MAX
}

/// Position and velocity within the bounds every pass relies on for its
/// arithmetic.
pub open spec fn ball_bounds(b: Ball, f: Field) -> bool {
    &&& vel_ok(b)
    &&& -x_limit(f) <= b.x <= x_limit(f)
    &&& -y_limit(f) <= b.y <= y_limit(f)
}

/// No velocity component points further into a boundary the ball already
/// overlaps.
pub open spec fn wall_safe(b: Ball, f: Field) -> bool {
    &&& b.x + BALL_RADIUS >= f.half_width ==> b.vx <= 0
    &&& b.x - BALL_RADIUS <= -f.half_width ==> b.vx >= 0
    &&& b.y + BALL_RADIUS >= f.half_height ==> b.vy <= 0
}

/// A ball as the ticks hand it over: in bounds, wall-safe, and above the
/// floor (a ball at or below the floor is removed within its tick).
pub open spec fn ball_wf(b: Ball, f: Field) -> bool {
    &&& ball_bounds(b, f)
    &&& wall_safe(b, f)
    &&& b.y - BALL_RADIUS > -f.half_height
}

/// Every ball of a set in bounds.
pub open spec fn all_bounds(bs: Seq<Ball>, f: Field) -> bool {
    forall|i: int| 0 <= i < bs.len() ==> ball_bounds(bs[i], f)
}

/// Every ball of a set wall-safe.
pub open spec fn all_wall_safe(bs: Seq<Ball>, f: Field) -> bool {
    forall|i: int| 0 <= i < bs.len() ==> wall_safe(bs[i], f)
}

/// Every ball of a set fit to be handed to the next tick.
pub open spec fn all_wf(bs: Seq<Ball>, f: Field) -> bool {
    forall|i: int| 0 <= i < bs.len() ==> ball_wf(bs[i], f)
}

// ---------------------------------------------------------------------
// Serving: a fresh ball gets a randomized near-vertical downward heading.

/// Horizontal serve components are drawn from this half-open range of
/// thousandths; the vertical component is a fixed -1000 thousandths, so
/// the pre-normalization direction is never degenerate.
pub open spec fn valid_serve_dir(h: int) -> bool {
    -1000 <= h < 1000
}

/// Length of the raw direction vector `(h, -1000)`, rounded down.
pub open spec fn serve_norm(h: int) -> int {
    sqrt_floor(h * h + 1_000_000)
}

/// Horizontal component of the serve velocity: `h/|(h,-1000)|` scaled to
/// `s`, rounded toward zero.
pub open spec fn serve_vel_x(h: int, s: int) -> int {
    if h >= 0 {
        (h * s) / serve_norm(h)
    } else {
        -(((-h) * s) / serve_norm(h))
    }
}

/// Vertical component of the serve velocity: always downward, toward the
/// paddle.
pub open spec fn serve_vel_y(h: int, s: int) -> int {
    -((1000 * s) / serve_norm(h))
}

/// Where a new ball is served.
pub open spec fn serve_y(f: Field) -> int {
    f.half_height - SERVE_DROP
}

/// A ball standing at the serve position whose velocity is some valid
/// serve at speed `s`.
pub open spec fn is_serve_ball(b: Ball, f: Field, s: int) -> bool {
    &&& b.x == 0
    &&& b.y == serve_y(f)
    &&& exists|h: int|
        valid_serve_dir(h) && b.vx == serve_vel_x(h, s) && b.vy == serve_vel_y(h, s)
}

/// The norm of a raw serve direction lies between the fixed vertical
/// component and the length of the extreme diagonal.
pub proof fn lemma_serve_norm_bounds(h: int)
    requires
        -1000 <= h <= 1000,
    ensures
        is_sqrt_floor(h * h + 1_000_000, serve_norm(h)),
        1000 <= serve_norm(h) <= 1414,
{
    assert(0 <= h * h <= 1_000_000) by (nonlinear_arith)
        requires
            -1000 <= h <= 1000,
    ;
    lemma_sqrt_floor_exists(h * h + 1_000_000);
    let r = serve_norm(h);
    assert(1000 <= r <= 1414) by (nonlinear_arith)
        requires
            0 <= r,
            r * r <= h * h + 1_000_000,
            h * h + 1_000_000 < (r + 1) * (r + 1),
            0 <= h * h <= 1_000_000,
    ;
}

/// A serve at speed `s` keeps both components within `s`, and the
/// vertical one non-positive.
pub proof fn lemma_serve_vel_bounds(h: int, s: int)
    requires
        -1000 <= h <= 1000,
        s >= 0,
    ensures
        -s <= serve_vel_x(h, s) <= s,
        -s <= serve_vel_y(h, s) <= 0,
        s >= 2 ==> serve_vel_y(h, s) < 0,
{
    lemma_serve_norm_bounds(h);
    if s >= 2 {
        lemma_div_is_ordered(2000, 1000 * s, serve_norm(h));
        lemma_div_is_ordered_by_denominator(2000, serve_norm(h), 2000);
    }
    let n = serve_norm(h);
    let m = if h >= 0 { h } else { -h };
    assert(0 <= m <= 1000);
    lemma_mul_inequality(m, n, s);
    lemma_div_is_ordered(m * s, n * s, n);
    lemma_div_pos_is_pos(m * s, n);
    lemma_div_multiples_vanish(s, n);
    assert(n * s == s * n) by (nonlinear_arith);
    assert(m * s == s * m) by (nonlinear_arith);
    assert((m * s) / n <= s);
    lemma_mul_inequality(1000, n, s);
    lemma_div_is_ordered(1000 * s, n * s, n);
    lemma_div_pos_is_pos(1000 * s, n);
    assert(1000 * s == s * 1000) by (nonlinear_arith);
}

/// Relies on `rand::Rng::random_range` through `rand::rng`'s thread-local
/// generator: for a non-empty integer range it returns a uniformly drawn
/// value of the range, and panics only on an empty range.
#[verifier::external_body]
fn draw_in_range(lo: i64, hi: i64) -> (r: i64)
    requires
        lo < hi,
    ensures
        lo <= r < hi,
{
    rand::Rng::random_range(&mut rand::rng(), lo..hi)
}

/// Normalize the raw direction `(h, -1000)` and scale it to `speed`.
pub fn serve_velocity(h: i64, speed: i64) -> (v: (i64, i64))
    requires
        -1000 <= h <= 1000,
        0 <= speed <= VEL_CAP,
    ensures
        v.0 as int == serve_vel_x(h as int, speed as int),
        v.1 as int == serve_vel_y(h as int, speed as int),
        -speed <= v.0 <= speed,
        -speed <= v.1 <= 0,
        speed >= 2 ==> v.1 < 0,
{
    proof {
        lemma_serve_norm_bounds(h as int);
        lemma_serve_vel_bounds(h as int, speed as int);
        assert(0 <= (h as int) * (h as int) <= 1_000_000) by (nonlinear_arith)
            requires
                -1000 <= h as int <= 1000,
        ;
        assert(-1_000_000_000_000 <= (h as int) * (speed as int) <= 1_000_000_000_000
            && -1_000_000_000_000 <= (-(h as int)) * (speed as int) <= 1_000_000_000_000
            && 0 <= 1000 * (speed as int) <= 1_000_000_000_000) by (nonlinear_arith)
            requires
                -1000 <= h as int <= 1000,
                0 <= speed as int <= 1_000_000_000,
        ;
    }
    let sq: i64 = h * h + 1_000_000;
    let norm: i64 = isqrt(sq);
    proof {
        lemma_sqrt_floor_unique(sq as int, norm as int, serve_norm(h as int));
    }
    let vy: i64 = -((1000 * speed) / norm);
    let vx: i64 = if h >= 0 {
        (h * speed) / norm
    } else {
        -(((-h) * speed) / norm)
    };
    (vx, vy)
}

/// Draw a fresh serve velocity of magnitude `ball_speed`: horizontal
/// thousandths uniformly random, vertical fixed downward, normalized and
/// scaled.
pub fn get_random_velocity(ball_speed: i64) -> (v: (i64, i64))
    requires
        0 <= ball_speed <= VEL_CAP,
    ensures
        exists|h: int|
            valid_serve_dir(h) && v.0 as int == serve_vel_x(h, ball_speed as int) && v.1 as int
                == serve_vel_y(h, ball_speed as int),
        -ball_speed <= v.0 <= ball_speed,
        -ball_speed <= v.1 <= 0,
        ball_speed >= 2 ==> v.1 < 0,
{
    let h: i64 = draw_in_range(-1000, 1000);
    let v: (i64, i64) = serve_velocity(h, ball_speed);
    proof {
        assert(valid_serve_dir(h as int) && v.0 as int == serve_vel_x(h as int, ball_speed as int)
            && v.1 as int == serve_vel_y(h as int, ball_speed as int));
    }
    v
}

/// Place a ball with the given velocity at the serve position: centred
/// horizontally, three island heights below the ceiling.
pub fn spawn_ball_with_velocity(f: &Field, vx: i64, vy: i64) -> (b: Ball)
    requires
        f.wf(),
        -VEL_CAP <= vx <= VEL_CAP,
        -VEL_CAP <= vy <= VEL_CAP,
    ensures
        b.x == 0,
        b.y == serve_y(*f),
        b.vx == vx,
        b.vy == vy,
        ball_wf(b, *f),
{
    Ball { x: 0, y: f.half_height - SERVE_DROP, vx, vy }
}

// ---------------------------------------------------------------------
// Motion integration and the wall and paddle passes.

/// A velocity component forced non-positive, keeping its magnitude.
pub open spec fn neg_abs(v: i64) -> i64 {
    if v <= 0 {
        v
    } else {
        (-(v as int)) as i64
    }
}

/// One Euler step: the position advances by `velocity * dt`.
pub open spec fn moved_ball(b: Ball, dt: int) -> Ball {
    Ball { x: (b.x + b.vx * dt) as i64, y: (b.y + b.vy * dt) as i64, vx: b.vx, vy: b.vy }
}

/// One frame's travel on one axis stays within the cap times the longest
/// frame, and keeps the component's sign.
proof fn lemma_travel_bounds(v: int, dt: int)
    requires
        -VEL_CAP <= v <= VEL_CAP,
        0 <= dt <= DT_MAX,
    ensures
        -1_000_000_000_000_000 <= v * dt <= 1_000_000_000_000_000,
        v <= 0 ==> v * dt <= 0,
        v >= 0 ==> v * dt >= 0,
{
    assert(-1_000_000_000_000_000 <= v * dt <= 1_000_000_000_000_000 && (v <= 0 ==> v * dt <= 0)
        && (v >= 0 ==> v * dt >= 0)) by (nonlinear_arith)
        requires
            -1_000_000_000 <= v <= 1_000_000_000,
            0 <= dt <= 1_000_000,
    ;
}

/// Advance every ball's position by its velocity times the elapsed
/// milliseconds.
pub fn move_ball(balls: &mut Vec<Ball>, dt: i64, f: &Field)
    requires
        f.wf(),
        0 <= dt <= DT_MAX,
        all_wf(old(balls)@, *f),
    ensures
        final(balls)@.len() == old(balls)@.len(),
        forall|i: int|
            0 <= i < old(balls)@.len() ==> final(balls)@[i] == moved_ball(
                old(balls)@[i],
                dt as int,
            ),
        all_bounds(final(balls)@, *f),
{
    let ghost bs0 = balls@;
    let mut out: Vec<Ball> = Vec::new();
    let mut i: usize = 0;
    while i < balls.len()
        invariant
            balls@ == bs0,
            f.wf(),
            0 <= dt <= DT_MAX,
            all_wf(bs0, *f),
            i <= bs0.len(),
            out@.len() == i as int,
            forall|j: int| 0 <= j < i as int ==> out@[j] == moved_ball(bs0[j], dt as int),
            all_bounds(out@, *f),
        decreases bs0.len() - i,
    {
        let b: Ball = balls[i];
        proof {
            assert(ball_wf(bs0[i as int], *f));
            lemma_travel_bounds(b.vx as int, dt as int);
            lemma_travel_bounds(b.vy as int, dt as int);
        }
        let nx: i64 = b.x + b.vx * dt;
        let ny: i64 = b.y + b.vy * dt;
        let nb: Ball = Ball { x: nx, y: ny, vx: b.vx, vy: b.vy };
        proof {
            assert(nb == moved_ball(bs0[i as int], dt as int));
            assert(ball_bounds(nb, *f));
        }
        out.push(nb);
        i = i + 1;
    }
    *balls = out;
}

/// A ball after the wall pass: a velocity component that points into an
/// overlapped wall or into the ceiling is force-corrected away from it.
pub open spec fn wall_fixed(b: Ball, f: Field) -> Ball {
    Ball {
        x: b.x,
        y: b.y,
        vx: if b.x + BALL_RADIUS >= f.half_width {
            neg_abs(b.vx)
        } else if b.x - BALL_RADIUS <= -f.half_width {
            vabs(b.vx)
        } else {
            b.vx
        },
        vy: if b.y + BALL_RADIUS >= f.half_height {
            neg_abs(b.vy)
        } else {
            b.vy
        },
    }
}

/// Law: after the wall pass no velocity component points further into a
/// boundary the ball overlaps.
pub proof fn lemma_wall_containment(b: Ball, f: Field)
    requires
        f.wf(),
        vel_ok(b),
    ensures
        wall_safe(wall_fixed(b, f), f),
{
}

/// Resolve every ball against the side walls and the ceiling.
pub fn ball_wall_collision(balls: &mut Vec<Ball>, f: &Field)
    requires
        f.wf(),
        all_bounds(old(balls)@, *f),
    ensures
        final(balls)@.len() == old(balls)@.len(),
        forall|i: int|
            0 <= i < old(balls)@.len() ==> final(balls)@[i] == wall_fixed(old(balls)@[i], *f),
        all_bounds(final(balls)@, *f),
        all_wall_safe(final(balls)@, *f),
{
    let ghost bs0 = balls@;
    let mut out: Vec<Ball> = Vec::new();
    let mut i: usize = 0;
    while i < balls.len()
        invariant
            balls@ == bs0,
            f.wf(),
            all_bounds(bs0, *f),
            i <= bs0.len(),
            out@.len() == i as int,
            forall|j: int| 0 <= j < i as int ==> out@[j] == wall_fixed(bs0[j], *f),
            all_bounds(out@, *f),
            all_wall_safe(out@, *f),
        decreases bs0.len() - i,
    {
        let b: Ball = balls[i];
        proof {
            assert(ball_bounds(bs0[i as int], *f));
        }
        let mut nvx: i64 = b.vx;
        let mut nvy: i64 = b.vy;
        if b.x + BALL_RADIUS >= f.half_width {
            nvx = if b.vx <= 0 {
                b.vx
            } else {
                -b.vx
            };
        } else if b.x - BALL_RADIUS <= -f.half_width {
            nvx = if b.vx >= 0 {
                b.vx
            } else {
                -b.vx
            };
        }
        if b.y + BALL_RADIUS >= f.half_height {
            nvy = if b.vy <= 0 {
                b.vy
            } else {
                -b.vy
            };
        }
        let nb: Ball = Ball { x: b.x, y: b.y, vx: nvx, vy: nvy };
        proof {
            assert(nb == wall_fixed(bs0[i as int], *f));
            lemma_wall_containment(bs0[i as int], *f);
        }
        out.push(nb);
        i = i + 1;
    }
    *balls = out;
}

/// The ball's centre is over the paddle and its bottom edge touches the
/// paddle's top face: at or below the top, at or above the baseline.
pub open spec fn paddle_hit(b: Ball, p: Paddle) -> bool {
    &&& p.x - PLAYER_WIDTH / 2 <= b.x <= p.x + PLAYER_WIDTH / 2
    &&& b.y - BALL_RADIUS <= p.y + PLAYER_HEIGHT / 2
    &&& b.y - BALL_RADIUS >= p.y
}

/// A ball after the paddle pass: a touching ball's vertical velocity is
/// force-corrected upward.
pub open spec fn paddle_fixed(b: Ball, p: Paddle) -> Ball {
    Ball {
        x: b.x,
        y: b.y,
        vx: b.vx,
        vy: if paddle_hit(b, p) {
            vabs(b.vy)
        } else {
            b.vy
        },
    }
}

/// Law: a moving ball that touches the paddle leaves it strictly upward.
/// (A ball whose vertical velocity is exactly zero keeps it.)
pub proof fn lemma_paddle_correction(b: Ball, p: Paddle)
    requires
        paddle_hit(b, p),
        vel_ok(b),
        b.vy != 0,
    ensures
        paddle_fixed(b, p).vy > 0,
{
}

/// Resolve every ball against the paddle's top face.
pub fn ball_paddle_collision(balls: &mut Vec<Ball>, p: &Paddle, f: &Field)
    requires
        f.wf(),
        crate::player::paddle_wf(*p, *f),
        all_bounds(old(balls)@, *f),
        all_wall_safe(old(balls)@, *f),
    ensures
        final(balls)@.len() == old(balls)@.len(),
        forall|i: int|
            0 <= i < old(balls)@.len() ==> final(balls)@[i] == paddle_fixed(old(balls)@[i], *p),
        all_bounds(final(balls)@, *f),
        all_wall_safe(final(balls)@, *f),
{
    let ghost bs0 = balls@;
    let mut out: Vec<Ball> = Vec::new();
    let mut i: usize = 0;
    while i < balls.len()
        invariant
            balls@ == bs0,
            f.wf(),
            crate::player::paddle_wf(*p, *f),
            all_bounds(bs0, *f),
            all_wall_safe(bs0, *f),
            i <= bs0.len(),
            out@.len() == i as int,
            forall|j: int| 0 <= j < i as int ==> out@[j] == paddle_fixed(bs0[j], *p),
            all_bounds(out@, *f),
            all_wall_safe(out@, *f),
        decreases bs0.len() - i,
    {
        let b: Ball = balls[i];
        proof {
            assert(ball_bounds(bs0[i as int], *f));
            assert(wall_safe(bs0[i as int], *f));
        }
        let x_hit: bool = p.x - PLAYER_WIDTH / 2 <= b.x && b.x <= p.x + PLAYER_WIDTH / 2;
        let ball_bottom: i64 = b.y - BALL_RADIUS;
        let y_hit: bool = ball_bottom <= p.y + PLAYER_HEIGHT / 2 && ball_bottom >= p.y;
        let nvy: i64 = if x_hit && y_hit {
            if b.vy >= 0 {
                b.vy
            } else {
                -b.vy
            }
        } else {
            b.vy
        };
        let nb: Ball = Ball { x: b.x, y: b.y, vx: b.vx, vy: nvy };
        proof {
            assert(nb == paddle_fixed(bs0[i as int], *p));
            assert(wall_safe(nb, *f));
        }
        out.push(nb);
        i = i + 1;
    }
    *balls = out;
}

// ---------------------------------------------------------------------
// The island pass: bounce, score, milestones.

/// The ball's centre is within the island's half-width and its vertical
/// extent touches the strip.
pub open spec fn island_hit(b: Ball, isl: Island) -> bool {
    &&& isl.x - isl.width / 2 <= b.x <= isl.x + isl.width / 2
    &&& b.y + BALL_RADIUS >= isl.y - ISLAND_HEIGHT / 2
    &&& b.y - BALL_RADIUS <= isl.y + ISLAND_HEIGHT / 2
}

/// A magnitude saturated at the velocity cap.
pub open spec fn cap_mag(m: int) -> int {
    if m > VEL_CAP {
        VEL_CAP as int
    } else {
        m
    }
}

/// A velocity component scaled up by the milestone factor of six fifths,
/// rounded toward zero and saturated at the cap; the sign is kept.
pub open spec fn scale_vel(v: i64) -> i64 {
    if v >= 0 {
        cap_mag((6 * v) / 5) as i64
    } else {
        (-cap_mag((6 * (-(v as int))) / 5)) as i64
    }
}

/// How many balls of the set overlap the island.
pub open spec fn hits(bs: Seq<Ball>, isl: Island) -> int
    decreases bs.len(),
{
    if bs.len() == 0 {
        0
    } else {
        (if island_hit(bs[0], isl) {
            1int
        } else {
            0int
        }) + hits(bs.drop_first(), isl)
    }
}

/// A ball after the island pass, given the running score before it was
/// scanned: an overlapping ball is bounced downward, and scaled up if the
/// hit completed a milestone.
pub open spec fn island_ball(b: Ball, isl: Island, s: int) -> Ball {
    if !island_hit(b, isl) {
        b
    } else {
        if (s + 1) % 5 == 0 {
            Ball { x: b.x, y: b.y, vx: scale_vel(b.vx), vy: scale_vel(neg_abs(b.vy)) }
        } else {
            Ball { x: b.x, y: b.y, vx: b.vx, vy: neg_abs(b.vy) }
        }
    }
}

/// The speed a milestone hands to its spawned ball: the magnitude of the
/// trigger ball's scaled velocity, rounded down.
pub open spec fn milestone_speed(b: Ball, isl: Island) -> int {
    sqrt_floor(
        scale_vel(b.vx) * scale_vel(b.vx) + scale_vel(neg_abs(b.vy)) * scale_vel(neg_abs(b.vy)),
    )
}

/// The spawn speeds a scan of the set requests, in scan order: one entry
/// per milestone hit.
pub open spec fn spawn_speeds(bs: Seq<Ball>, isl: Island, s: int) -> Seq<int>
    decreases bs.len(),
{
    if bs.len() == 0 {
        Seq::empty()
    } else {
        let rest = spawn_speeds(
            bs.drop_first(),
            isl,
            s + if island_hit(bs[0], isl) {
                1int
            } else {
                0int
            },
        );
        if island_hit(bs[0], isl) && (s + 1) % 5 == 0 {
            seq![milestone_speed(bs[0], isl)] + rest
        } else {
            rest
        }
    }
}

/// The whole set after the island pass, given the score at scan start.
pub open spec fn island_balls(bs: Seq<Ball>, isl: Island, s0: int) -> Seq<Ball> {
    Seq::new(bs.len(), |i: int| island_ball(bs[i], isl, s0 + hits(bs.take(i), isl)))
}

/// Hit counts over a split set add up.
pub proof fn lemma_hits_concat(a: Seq<Ball>, b: Seq<Ball>, isl: Island)
    ensures
        hits(a + b, isl) == hits(a, isl) + hits(b, isl),
    decreases a.len(),
{
    if a.len() == 0 {
        assert(a + b =~= b);
    } else {
        assert((a + b).drop_first() =~= a.drop_first() + b);
        lemma_hits_concat(a.drop_first(), b, isl);
    }
}

/// A scan of a split set requests first the front's spawns, then the
/// back's, the back scanned at the score the front left behind.
pub proof fn lemma_spawn_speeds_concat(a: Seq<Ball>, b: Seq<Ball>, isl: Island, s: int)
    ensures
        spawn_speeds(a + b, isl, s) == spawn_speeds(a, isl, s) + spawn_speeds(
            b,
            isl,
            s + hits(a, isl),
        ),
    decreases a.len(),
{
    if a.len() == 0 {
        assert(a + b =~= b);
        assert(spawn_speeds(a, isl, s) =~= Seq::<int>::empty());
        assert(spawn_speeds(a, isl, s) + spawn_speeds(b, isl, s + hits(a, isl)) =~= spawn_speeds(
            b,
            isl,
            s,
        ));
    } else {
        assert((a + b).drop_first() =~= a.drop_first() + b);
        assert((a + b)[0] == a[0]);
        let bump = if island_hit(a[0], isl) {
            1int
        } else {
            0int
        };
        lemma_spawn_speeds_concat(a.drop_first(), b, isl, s + bump);
        if island_hit(a[0], isl) && (s + 1) % 5 == 0 {
            assert(seq![milestone_speed(a[0], isl)] + (spawn_speeds(a.drop_first(), isl, s + bump)
                + spawn_speeds(b, isl, s + bump + hits(a.drop_first(), isl))) =~= (seq![
                milestone_speed(a[0], isl),
            ] + spawn_speeds(a.drop_first(), isl, s + bump)) + spawn_speeds(
                b,
                isl,
                s + bump + hits(a.drop_first(), isl),
            ));
        }
    }
}

/// What the scan of a single ball yields.
pub proof fn lemma_scan_single(b: Ball, isl: Island, s: int)
    ensures
        hits(seq![b], isl) == if island_hit(b, isl) {
            1int
        } else {
            0int
        },
        spawn_speeds(seq![b], isl, s) == if island_hit(b, isl) && (s + 1) % 5 == 0 {
            seq![milestone_speed(b, isl)]
        } else {
            Seq::<int>::empty()
        },
{
    assert(seq![b].drop_first() =~= Seq::<Ball>::empty());
    assert(hits(Seq::<Ball>::empty(), isl) == 0);
    assert(seq![b][0] == b);
    let s1 = s + if island_hit(b, isl) {
        1int
    } else {
        0int
    };
    assert(spawn_speeds(Seq::<Ball>::empty(), isl, s1) =~= Seq::<int>::empty());
    if island_hit(b, isl) && (s + 1) % 5 == 0 {
        assert(seq![milestone_speed(b, isl)] + Seq::<int>::empty() =~= seq![
            milestone_speed(b, isl),
        ]);
    }
}

/// Scale a velocity component by the milestone factor, saturating at the
/// cap.
fn scale_component(v: i64) -> (r: i64)
    requires
        -VEL_CAP <= v <= VEL_CAP,
    ensures
        r == scale_vel(v),
        -VEL_CAP <= r <= VEL_CAP,
        v <= 0 ==> r <= 0,
        v >= 0 ==> r >= 0,
        v < 0 ==> r < 0,
        v > 0 ==> r > 0,
{
    if v >= 0 {
        let m: i64 = (6 * v) / 5;
        if m > VEL_CAP {
            VEL_CAP
        } else {
            m
        }
    } else {
        let m: i64 = (6 * (-v)) / 5;
        let c: i64 = if m > VEL_CAP {
            VEL_CAP
        } else {
            m
        };
        -c
    }
}

/// Resolve every ball against the island: bounce it downward, count the
/// hit, and on each milestone scale the trigger ball up, remember a spawn
/// speed, and — after the scan — narrow the island once per milestone and
/// serve the new balls.
pub fn ball_island_collision(balls: &mut Vec<Ball>, island: &mut Island, score: &mut Score, f: &Field)
    requires
        f.wf(),
        island_wf(*old(island), *f),
        old(score).0 >= 0,
        old(score).0 + old(balls)@.len() <= i32::MAX,
        all_bounds(old(balls)@, *f),
        all_wall_safe(old(balls)@, *f),
    ensures
        final(score).0 as int == old(score).0 + hits(old(balls)@, *old(island)),
        final(island).x == old(island).x,
        final(island).y == old(island).y,
        final(island).width as int == shrunk_iter(
            old(island).width as int,
            spawn_speeds(old(balls)@, *old(island), old(score).0 as int).len(),
        ),
        island_wf(*final(island), *f),
        final(balls)@.len() == old(balls)@.len() + spawn_speeds(
            old(balls)@,
            *old(island),
            old(score).0 as int,
        ).len(),
        forall|i: int|
            0 <= i < old(balls)@.len() ==> final(balls)@[i] == island_ball(
                old(balls)@[i],
                *old(island),
                old(score).0 + hits(old(balls)@.take(i), *old(island)),
            ),
        forall|j: int|
            old(balls)@.len() <= j < final(balls)@.len() ==> is_spawned_ball(
                final(balls)@[j],
                *f,
                spawn_speeds(old(balls)@, *old(island), old(score).0 as int)[j - old(
                    balls,
                )@.len()],
            ) && ball_wf(final(balls)@[j], *f),
        all_bounds(final(balls)@, *f),
        all_wall_safe(final(balls)@, *f),
{
    let ghost bs0 = balls@;
    let ghost isl0 = *island;
    let ghost s0 = score.0 as int;
    let mut out: Vec<Ball> = Vec::new();
    let mut speeds: Vec<i64> = Vec::new();
    let mut i: usize = 0;
    while i < balls.len()
        invariant
            balls@ == bs0,
            *island == isl0,
            f.wf(),
            island_wf(isl0, *f),
            all_bounds(bs0, *f),
            all_wall_safe(bs0, *f),
            s0 >= 0,
            s0 + bs0.len() <= i32::MAX,
            i <= bs0.len(),
            out@.len() == i as int,
            score.0 as int == s0 + hits(bs0.take(i as int), isl0),
            0 <= hits(bs0.take(i as int), isl0) <= i as int,
            forall|j: int|
                0 <= j < i as int ==> out@[j] == island_ball(
                    bs0[j],
                    isl0,
                    s0 + hits(bs0.take(j), isl0),
                ),
            speeds@.len() == spawn_speeds(bs0.take(i as int), isl0, s0).len(),
            forall|j: int| #![trigger speeds@[j]]
                0 <= j < speeds@.len() ==> speeds@[j] as int == spawn_speeds(
                    bs0.take(i as int),
                    isl0,
                    s0,
                )[j] && 0 <= speeds@[j] < 1_500_000_000,
            all_bounds(out@, *f),
            all_wall_safe(out@, *f),
        decreases bs0.len() - i,
    {
        let b: Ball = balls[i];
        let ghost pre = bs0.take(i as int);
        let ghost sb = s0 + hits(pre, isl0);
        proof {
            assert(ball_bounds(bs0[i as int], *f));
            assert(wall_safe(bs0[i as int], *f));
            assert(bs0.take(i as int + 1) =~= pre + seq![bs0[i as int]]);
            lemma_hits_concat(pre, seq![bs0[i as int]], isl0);
            lemma_scan_single(bs0[i as int], isl0, sb);
            lemma_spawn_speeds_concat(pre, seq![bs0[i as int]], isl0, s0);
        }
        let x_hit: bool = island.x - island.width / 2 <= b.x && b.x <= island.x + island.width
            / 2;
        let y_hit: bool = b.y + BALL_RADIUS >= island.y - ISLAND_HEIGHT / 2 && b.y - BALL_RADIUS
            <= island.y + ISLAND_HEIGHT / 2;
        if x_hit && y_hit {
            assert(island_hit(bs0[i as int], isl0));
            let vy1: i64 = if b.vy <= 0 {
                b.vy
            } else {
                -b.vy
            };
            *score = Score(score.0 + 1);
            if score.0 % 5 == 0 {
                let nvx: i64 = scale_component(b.vx);
                let nvy: i64 = scale_component(vy1);
                proof {
                    assert(0 <= (nvx as int) * (nvx as int) <= 1_000_000_000_000_000_000 && 0 <= (
                    nvy as int) * (nvy as int) <= 1_000_000_000_000_000_000) by (nonlinear_arith)
                        requires
                            -1_000_000_000 <= nvx as int <= 1_000_000_000,
                            -1_000_000_000 <= nvy as int <= 1_000_000_000,
                    ;
                }
                let sq: i64 = nvx * nvx + nvy * nvy;
                let sp: i64 = isqrt(sq);
                speeds.push(sp);
                out.push(Ball { x: b.x, y: b.y, vx: nvx, vy: nvy });
            } else {
                out.push(Ball { x: b.x, y: b.y, vx: b.vx, vy: vy1 });
            }
        } else {
            out.push(b);
        }
        i = i + 1;
    }
    proof {
        assert(bs0.take(bs0.len() as int) =~= bs0);
    }
    *balls = out;
    let ghost sps = spawn_speeds(bs0, isl0, s0);
    let mut k: usize = 0;
    while k < speeds.len()
        invariant
            f.wf(),
            island_wf(isl0, *f),
            speeds@.len() == sps.len(),
            forall|j: int| #![trigger speeds@[j]]
                0 <= j < speeds@.len() ==> speeds@[j] as int == sps[j] && 0 <= speeds@[j]
                    < 1_500_000_000,
            k <= speeds@.len(),
            score.0 as int == s0 + hits(bs0, isl0),
            balls@.len() == bs0.len() + k as int,
            forall|j: int|
                0 <= j < bs0.len() ==> balls@[j] == island_ball(
                    bs0[j],
                    isl0,
                    s0 + hits(bs0.take(j), isl0),
                ),
            all_bounds(balls@, *f),
            all_wall_safe(balls@, *f),
            forall|j: int|
                bs0.len() <= j < balls@.len() ==> is_spawned_ball(
                    balls@[j],
                    *f,
                    sps[j - bs0.len()],
                ) && ball_wf(balls@[j], *f),
            island.x == isl0.x,
            island.y == isl0.y,
            island.width as int == shrunk_iter(isl0.width as int, k as nat),
            island_wf(*island, *f),
        decreases speeds@.len() - k,
    {
        let sp: i64 = speeds[k];
        assert(0 <= speeds@[k as int] < 1_500_000_000);
        let sp_used: i64 = if sp > VEL_CAP {
            VEL_CAP
        } else {
            sp
        };
        let v: (i64, i64) = get_random_velocity(sp_used);
        let nb: Ball = spawn_ball_with_velocity(f, v.0, v.1);
        proof {
            assert(sp_used as int == cap_speed(sps[k as int]));
            assert(is_spawned_ball(nb, *f, sps[k as int]));
        }
        balls.push(nb);
        crate::island::shrink_island(island);
        proof {
            crate::island::lemma_shrunk_iter_closed(isl0.width as int, k as nat);
        }
        k = k + 1;
    }
    proof {
        crate::island::lemma_shrunk_iter_closed(isl0.width as int, sps.len());
    }
}

/// A speed request saturated at the velocity cap.
pub open spec fn cap_speed(sp: int) -> int {
    if sp > VEL_CAP {
        VEL_CAP as int
    } else {
        sp
    }
}

/// A ball standing at the serve position whose velocity is some valid
/// serve at the capped speed `sp`.
pub open spec fn is_spawned_ball(b: Ball, f: Field, sp: int) -> bool {
    &&& b.x == 0
    &&& b.y == serve_y(f)
    &&& exists|h: int|
        valid_serve_dir(h) && b.vx as int == serve_vel_x(h, cap_speed(sp)) && b.vy as int
            == serve_vel_y(h, cap_speed(sp))
}

/// Law: a ball overlapping the island scores exactly one hit, and a
/// moving ball leaves the island strictly downward.  (A ball whose
/// vertical velocity is exactly zero keeps it.)
pub proof fn lemma_target_bounce(b: Ball, isl: Island, s: int)
    requires
        island_hit(b, isl),
        vel_ok(b),
        b.vy != 0,
        s >= 0,
    ensures
        hits(seq![b], isl) == 1,
        island_ball(b, isl, s).vy < 0,
{
    lemma_scan_single(b, isl, s);
    if (s + 1) % 5 == 0 {
        let m = -(neg_abs(b.vy) as int);
        assert(1 <= m <= VEL_CAP);
        assert(6 <= 6 * m) by (nonlinear_arith)
            requires
                1 <= m,
        ;
        lemma_div_is_ordered(6, 6 * m, 5);
    }
}

/// Law: a hit that completes a milestone scales the trigger ball's
/// velocity by exactly six fifths per component (the inputs below the
/// saturation cap), requests exactly one spawn, at the scaled ball's
/// measured speed, and the island narrows by one step, floored.
pub proof fn lemma_milestone(b: Ball, isl: Island, s: int, w: int)
    requires
        island_hit(b, isl),
        vel_ok(b),
        s >= 0,
        (s + 1) % 5 == 0,
        -833_333_333 <= b.vx <= 833_333_333,
        -833_333_333 <= b.vy <= 833_333_333,
        ISLAND_MIN_WIDTH <= w,
    ensures
        island_ball(b, isl, s).vx as int == if b.vx >= 0 {
            (6 * b.vx) / 5
        } else {
            -((6 * (-(b.vx as int))) / 5)
        },
        island_ball(b, isl, s).vy as int == -((6 * (vabs(b.vy) as int)) / 5),
        spawn_speeds(seq![b], isl, s) == seq![milestone_speed(b, isl)],
        milestone_speed(b, isl) == sqrt_floor(
            island_ball(b, isl, s).vx * island_ball(b, isl, s).vx + island_ball(b, isl, s).vy
                * island_ball(b, isl, s).vy,
        ),
        shrunk_iter(w, 1) == if w - ISLAND_SHRINK >= ISLAND_MIN_WIDTH {
            w - ISLAND_SHRINK
        } else {
            ISLAND_MIN_WIDTH as int
        },
{
    lemma_scan_single(b, isl, s);
    let mx = if b.vx >= 0 {
        b.vx as int
    } else {
        -(b.vx as int)
    };
    let my = -(neg_abs(b.vy) as int);
    assert(0 <= mx <= 833_333_333 && 0 <= my <= 833_333_333);
    assert(6 * mx <= 4_999_999_998 && 6 * my <= 4_999_999_998) by (nonlinear_arith)
        requires
            0 <= mx <= 833_333_333,
            0 <= my <= 833_333_333,
    ;
    lemma_div_is_ordered(6 * mx, 4_999_999_998, 5);
    lemma_div_is_ordered(6 * my, 4_999_999_998, 5);
    lemma_div_pos_is_pos(6 * mx, 5);
    lemma_div_pos_is_pos(6 * my, 5);
    assert(shrunk_iter(w, 0) == w);
}

// ---------------------------------------------------------------------
// Floor exit.

/// The ball's bottom edge has reached or passed the floor.
pub open spec fn ball_exits(b: Ball, f: Field) -> bool {
    b.y - BALL_RADIUS <= -f.half_height
}

/// The balls that stay after the floor check, in order.
pub open spec fn survivors(bs: Seq<Ball>, f: Field) -> Seq<Ball>
    decreases bs.len(),
{
    if bs.len() == 0 {
        Seq::empty()
    } else {
        let rest = survivors(bs.drop_first(), f);
        if ball_exits(bs[0], f) {
            rest
        } else {
            seq![bs[0]] + rest
        }
    }
}

/// No ball of the set overlaps more than one island scan: hit counts are
/// between zero and the set's size.
pub proof fn lemma_hits_bounds(bs: Seq<Ball>, isl: Island)
    ensures
        0 <= hits(bs, isl) <= bs.len(),
    decreases bs.len(),
{
    if bs.len() > 0 {
        lemma_hits_bounds(bs.drop_first(), isl);
    }
}

/// Survivors of a split set are the survivors of each part, in order.
pub proof fn lemma_survivors_concat(a: Seq<Ball>, b: Seq<Ball>, f: Field)
    ensures
        survivors(a + b, f) == survivors(a, f) + survivors(b, f),
    decreases a.len(),
{
    if a.len() == 0 {
        assert(a + b =~= b);
        assert(survivors(a, f) + survivors(b, f) =~= survivors(b, f));
    } else {
        assert((a + b).drop_first() =~= a.drop_first() + b);
        assert((a + b)[0] == a[0]);
        lemma_survivors_concat(a.drop_first(), b, f);
        if !ball_exits(a[0], f) {
            assert(seq![a[0]] + (survivors(a.drop_first(), f) + survivors(b, f)) =~= (seq![a[0]]
                + survivors(a.drop_first(), f)) + survivors(b, f));
        }
    }
}

/// What the floor check makes of a single ball.
pub proof fn lemma_survivors_single(b: Ball, f: Field)
    ensures
        survivors(seq![b], f) == if ball_exits(b, f) {
            Seq::<Ball>::empty()
        } else {
            seq![b]
        },
{
    assert(seq![b].drop_first() =~= Seq::<Ball>::empty());
    assert(survivors(Seq::<Ball>::empty(), f) =~= Seq::<Ball>::empty());
    if !ball_exits(b, f) {
        assert(seq![b] + Seq::<Ball>::empty() =~= seq![b]);
    }
}

/// Survivors are a selection of the set: there are at most as many, each
/// is one of the set's balls with its bottom edge above the floor, and
/// none is left exactly when every ball has exited.
pub proof fn lemma_survivors_props(bs: Seq<Ball>, f: Field)
    ensures
        survivors(bs, f).len() <= bs.len(),
        (survivors(bs, f).len() == 0 <==> (forall|i: int|
            0 <= i < bs.len() ==> ball_exits(bs[i], f))),
        forall|j: int|
            0 <= j < survivors(bs, f).len() ==> (exists|i: int|
                0 <= i < bs.len() && #[trigger] survivors(bs, f)[j] == bs[i] && !ball_exits(
                    bs[i],
                    f,
                )),
    decreases bs.len(),
{
    if bs.len() > 0 {
        lemma_survivors_props(bs.drop_first(), f);
        let rest = survivors(bs.drop_first(), f);
        assert forall|j: int| 0 <= j < survivors(bs, f).len() implies (exists|i: int|
            0 <= i < bs.len() && #[trigger] survivors(bs, f)[j] == bs[i] && !ball_exits(
                bs[i],
                f,
            )) by {
            if !ball_exits(bs[0], f) && j == 0 {
                assert(survivors(bs, f)[0] == bs[0]);
            } else {
                let jr = if ball_exits(bs[0], f) {
                    j
                } else {
                    j - 1
                };
                assert(survivors(bs, f)[j] == rest[jr]);
                let i0 = choose|i: int|
                    0 <= i < bs.drop_first().len() && rest[jr] == bs.drop_first()[i]
                        && !ball_exits(bs.drop_first()[i], f);
                assert(bs.drop_first()[i0] == bs[i0 + 1]);
            }
        }
        if survivors(bs, f).len() == 0 {
            assert(ball_exits(bs[0], f));
            assert forall|i: int| 0 <= i < bs.len() implies ball_exits(bs[i], f) by {
                if i > 0 {
                    assert(bs.drop_first()[i - 1] == bs[i]);
                }
            }
        }
        if forall|i: int| 0 <= i < bs.len() ==> ball_exits(bs[i], f) {
            assert forall|i: int| 0 <= i < bs.drop_first().len() implies ball_exits(
                bs.drop_first()[i],
                f,
            ) by {
                assert(bs.drop_first()[i] == bs[i + 1]);
            }
        }
    }
}

/// A set whose balls all stand above the floor passes the floor check
/// unchanged.
pub proof fn lemma_survivors_all_live(bs: Seq<Ball>, f: Field)
    requires
        forall|i: int| 0 <= i < bs.len() ==> !ball_exits(bs[i], f),
    ensures
        survivors(bs, f) == bs,
    decreases bs.len(),
{
    if bs.len() == 0 {
        assert(survivors(bs, f) =~= bs);
    } else {
        assert forall|i: int| 0 <= i < bs.drop_first().len() implies !ball_exits(
            bs.drop_first()[i],
            f,
        ) by {
            assert(bs.drop_first()[i] == bs[i + 1]);
        }
        lemma_survivors_all_live(bs.drop_first(), f);
        assert(seq![bs[0]] + bs.drop_first() =~= bs);
    }
}

/// Serve a round's first ball: a random serve at the base speed.
pub fn spawn_ball(f: &Field) -> (b: Ball)
    requires
        f.wf(),
    ensures
        is_serve_ball(b, *f, BALL_SPEED as int),
        ball_wf(b, *f),
        b.vy < 0,
{
    let v: (i64, i64) = get_random_velocity(BALL_SPEED);
    spawn_ball_with_velocity(f, v.0, v.1)
}

} // verus!
