//! The round controller: it owns the paddle, the island, the ball set and
//! the score, advances them once per frame in a fixed order — motion,
//! wall, paddle, island, floor exit — and decides when the round starts
//! and ends.

use crate::ball::{
    all_bounds, all_wall_safe, all_wf, ball_exits, ball_wf, hits, island_ball, island_balls,
    is_serve_ball, is_spawned_ball, lemma_hits_bounds, lemma_survivors_all_live,
    lemma_survivors_concat, lemma_survivors_props, moved_ball, paddle_fixed, spawn_ball,
    spawn_speeds, survivors, wall_fixed, Ball, BALL_SPEED, DT_MAX,
};
use crate::field::Field;
use crate::island::{island_wf, shrunk_iter, spawn_island, Island, ISLAND_WIDTH};
use crate::player::{paddle_wf, spawn_player, Paddle, PLAYER_HEIGHT};
use crate::score::{merged, save_data, SaveData, Score};
use vstd::prelude::*;

verus! {

/// Whether a round is being played.
#[derive(Clone, Copy, Debug, PartialEq, Eq, Structural)]
pub struct GameState {
    pub running: bool,
}

/// The one-shot signal that starts a round; consumed by `update_game`.
pub struct GameStartEvent;

/// Everything one round owns: the flag, the score, the geometry, at most
/// one paddle and one island, the ball set, and the latest known save
/// record.
pub struct Round {
    pub state: GameState,
    pub score: Score,
    pub field: Field,
    pub paddle: Option<Paddle>,
    pub island: Option<Island>,
    pub balls: Vec<Ball>,
    pub save: SaveData,
}

/// A round the ticks keep well-formed: sane geometry, a non-negative
/// score, every ball in bounds, wall-safe and above the floor, and the
/// paddle and island — when present — in their places.
pub open spec fn round_wf(r: Round) -> bool {
    &&& r.field.wf()
    &&& r.score.0 >= 0
    &&& all_wf(r.balls@, r.field)
    &&& match r.paddle {
        Some(p) => paddle_wf(p, r.field),
        None => true,
    }
    &&& match r.island {
        Some(isl) => island_wf(isl, r.field),
        None => true,
    }
}

/// Build an idle round around a field and a previously loaded record.
pub fn new_round(field: Field, save: SaveData) -> (r: Round)
    requires
        field.wf(),
    ensures
        r.state.running == false,
        r.score.0 == 0,
        r.field == field,
        r.paddle is None,
        r.island is None,
        r.balls@.len() == 0,
        r.save == save,
        round_wf(r),
{
    Round {
        state: GameState { running: false },
        score: Score(0),
        field,
        paddle: None,
        island: None,
        balls: Vec::new(),
        save,
    }
}

/// Remove every ball whose bottom edge has passed the floor.  If that
/// removes the last ball, the round ends: the paddle and the island are
/// destroyed, the running flag is cleared, and the score is folded into
/// the save record for the caller to persist.
pub fn ball_despawn(r: &mut Round)
    requires
        old(r).field.wf(),
        all_bounds(old(r).balls@, old(r).field),
        all_wall_safe(old(r).balls@, old(r).field),
    ensures
        final(r).field == old(r).field,
        final(r).score == old(r).score,
        if survivors(old(r).balls@, old(r).field).len() == 0 && old(r).balls@.len() > 0 {
            &&& final(r).state.running == false
            &&& final(r).balls@.len() == 0
            &&& final(r).paddle is None
            &&& final(r).island is None
            &&& final(r).save == merged(old(r).score.0, old(r).save)
        } else {
            &&& final(r).balls@ == survivors(old(r).balls@, old(r).field)
            &&& final(r).state == old(r).state
            &&& final(r).paddle == old(r).paddle
            &&& final(r).island == old(r).island
            &&& final(r).save == old(r).save
        },
        all_wf(final(r).balls@, final(r).field),
{
    let ghost bs0 = r.balls@;
    let ghost f = r.field;
    let mut out: Vec<Ball> = Vec::new();
    let mut i: usize = 0;
    while i < r.balls.len()
        invariant
            *r == *old(r),
            r.balls@ == bs0,
            r.field == f,
            f.wf(),
            all_bounds(bs0, f),
            all_wall_safe(bs0, f),
            i <= bs0.len(),
            out@ == survivors(bs0.take(i as int), f),
        decreases bs0.len() - i,
    {
        let b: Ball = r.balls[i];
        proof {
            assert(crate::ball::ball_bounds(bs0[i as int], f));
            assert(bs0.take(i as int + 1) =~= bs0.take(i as int) + seq![bs0[i as int]]);
            lemma_survivors_concat(bs0.take(i as int), seq![bs0[i as int]], f);
            crate::ball::lemma_survivors_single(bs0[i as int], f);
        }
        if b.y - crate::ball::BALL_RADIUS > -r.field.half_height {
            out.push(b);
            proof {
                assert(out@ =~= survivors(bs0.take(i as int), f) + seq![bs0[i as int]]);
            }
        }
        i = i + 1;
    }
    proof {
        assert(bs0.take(bs0.len() as int) =~= bs0);
        lemma_survivors_props(bs0, f);
    }
    if out.len() == 0 && r.balls.len() > 0 {
        r.state = GameState { running: false };
        r.paddle = None;
        r.island = None;
        r.balls = Vec::new();
        r.save = save_data(r.score.0, r.save);
    } else {
        r.balls = out;
        proof {
            assert forall|j: int| 0 <= j < final(r).balls@.len() implies ball_wf(
                final(r).balls@[j],
                f,
            ) by {
                let i0 = choose|i0: int|
                    0 <= i0 < bs0.len() && survivors(bs0, f)[j] == bs0[i0] && !ball_exits(
                        bs0[i0],
                        f,
                    );
                assert(crate::ball::ball_bounds(bs0[i0], f));
            }
        }
    }
}

/// Law: in every state the ticks hand over, no ball's velocity points
/// further into a boundary it already overlaps.
pub proof fn lemma_round_wall_containment(r: Round)
    requires
        round_wf(r),
    ensures
        forall|i: int|
            0 <= i < r.balls@.len() ==> crate::ball::wall_safe(r.balls@[i], r.field),
{
    assert forall|i: int| 0 <= i < r.balls@.len() implies crate::ball::wall_safe(
        r.balls@[i],
        r.field,
    ) by {
        assert(ball_wf(r.balls@[i], r.field));
    }
}

/// Where a round start puts the paddle.
pub open spec fn paddle_at_home(po: Option<Paddle>, f: Field) -> bool {
    match po {
        Some(p) => p.x == 0 && p.y == -f.half_height + PLAYER_HEIGHT,
        None => false,
    }
}

/// Where a round start puts the island.
pub open spec fn island_at_home(io: Option<Island>, f: Field) -> bool {
    match io {
        Some(isl) => isl.x == 0 && isl.y == crate::island::island_home_y(f) && isl.width
            == ISLAND_WIDTH,
        None => false,
    }
}

/// What starting a round does: score reset, paddle and island spawned in
/// their places, exactly one randomly served ball, the flag raised, the
/// field and the save record kept.
pub open spec fn round_started(r0: Round, r1: Round) -> bool {
    &&& r1.state.running == true
    &&& r1.score.0 == 0
    &&& r1.field == r0.field
    &&& r1.save == r0.save
    &&& paddle_at_home(r1.paddle, r0.field)
    &&& island_at_home(r1.island, r0.field)
    &&& r1.balls@.len() == 1
    &&& is_serve_ball(r1.balls@[0], r0.field, BALL_SPEED as int)
    &&& r1.balls@[0].vy < 0
}

/// Start a round: reset the score, spawn the paddle, the island and one
/// served ball, and raise the running flag.
pub fn start_round(r: &mut Round)
    requires
        old(r).field.wf(),
    ensures
        round_started(*old(r), *final(r)),
        round_wf(*final(r)),
{
    let f: Field = r.field;
    r.state = GameState { running: true };
    r.score = Score(0);
    r.paddle = Some(spawn_player(&f));
    r.island = Some(spawn_island(&f));
    let b: Ball = spawn_ball(&f);
    let mut set: Vec<Ball> = Vec::new();
    set.push(b);
    r.balls = set;
}

// ---------------------------------------------------------------------
// The per-frame tick.

/// The set after the motion pass.
pub open spec fn moved_seq(bs: Seq<Ball>, dt: int) -> Seq<Ball> {
    Seq::new(bs.len(), |i: int| moved_ball(bs[i], dt))
}

/// The set after the wall pass.
pub open spec fn wall_seq(bs: Seq<Ball>, f: Field) -> Seq<Ball> {
    Seq::new(bs.len(), |i: int| wall_fixed(bs[i], f))
}

/// The set after the paddle pass.
pub open spec fn paddle_seq(bs: Seq<Ball>, p: Paddle) -> Seq<Ball> {
    Seq::new(bs.len(), |i: int| paddle_fixed(bs[i], p))
}

/// The set once motion, wall and paddle passes are done (the paddle pass
/// is skipped when no paddle exists).
pub open spec fn scanned_balls(r: Round, dt: int) -> Seq<Ball> {
    let m2 = wall_seq(moved_seq(r.balls@, dt), r.field);
    match r.paddle {
        Some(p) => paddle_seq(m2, p),
        None => m2,
    }
}

/// What one tick of an active round does: every ball moved and resolved
/// in the fixed order, the score raised by one per island hit, one spawn
/// and one island step per milestone, exited balls removed — and, when
/// the last ball has exited, the round wound down and the score folded
/// into the save record.
pub open spec fn tick_rel(r0: Round, r1: Round, dt: int) -> bool {
    let f = r0.field;
    let m3 = scanned_balls(r0, dt);
    match r0.island {
        Some(isl) => {
            let s0 = r0.score.0 as int;
            let after = island_balls(m3, isl, s0);
            let sps = spawn_speeds(m3, isl, s0);
            let surv = survivors(after, f);
            &&& r1.field == f
            &&& r1.score.0 as int == s0 + hits(m3, isl)
            &&& if surv.len() == 0 && sps.len() == 0 && after.len() > 0 {
                &&& r1.state.running == false
                &&& r1.balls@.len() == 0
                &&& r1.paddle is None
                &&& r1.island is None
                &&& r1.save == merged(r1.score.0, r0.save)
            } else {
                &&& r1.state == r0.state
                &&& r1.paddle == r0.paddle
                &&& match r1.island {
                    Some(i1) => i1.x == isl.x && i1.y == isl.y && i1.width as int == shrunk_iter(
                        isl.width as int,
                        sps.len(),
                    ),
                    None => false,
                }
                &&& r1.save == r0.save
                &&& r1.balls@.len() == surv.len() + sps.len()
                &&& r1.balls@.take(surv.len() as int) == surv
                &&& forall|j: int|
                    0 <= j < sps.len() ==> is_spawned_ball(
                        r1.balls@[surv.len() + j],
                        f,
                        sps[j],
                    )
            }
        },
        None => {
            let surv = survivors(m3, f);
            &&& r1.field == f
            &&& r1.score == r0.score
            &&& if surv.len() == 0 && m3.len() > 0 {
                &&& r1.state.running == false
                &&& r1.balls@.len() == 0
                &&& r1.paddle is None
                &&& r1.island is None
                &&& r1.save == merged(r0.score.0, r0.save)
            } else {
                &&& r1.state == r0.state
                &&& r1.paddle == r0.paddle
                &&& r1.island is None
                &&& r1.save == r0.save
                &&& r1.balls@ == surv
            }
        },
    }
}

/// Law: a tick never lowers the score.
pub proof fn lemma_score_monotonic(r0: Round, r1: Round, dt: int)
    requires
        tick_rel(r0, r1, dt),
    ensures
        r1.score.0 >= r0.score.0,
{
    match r0.island {
        Some(isl) => {
            lemma_hits_bounds(scanned_balls(r0, dt), isl);
        },
        None => {},
    }
}

/// Law: a tick never widens the island, and never narrows it below its
/// floor width.
pub proof fn lemma_island_width_monotonic(r0: Round, r1: Round, dt: int)
    requires
        tick_rel(r0, r1, dt),
        round_wf(r0),
    ensures
        match (r0.island, r1.island) {
            (Some(i0), Some(i1)) => crate::island::ISLAND_MIN_WIDTH <= i1.width <= i0.width,
            (None, Some(_)) => false,
            _ => true,
        },
{
    match r0.island {
        Some(i0) => {
            let sps = spawn_speeds(scanned_balls(r0, dt), i0, r0.score.0 as int);
            crate::island::lemma_shrunk_iter_closed(i0.width as int, sps.len());
        },
        None => {},
    }
}

/// One frame of an active round: integrate motion, resolve walls, paddle
/// and island in that order, then remove exited balls and, on the last
/// ball's exit, end the round.  An idle round is left untouched.
pub fn tick(r: &mut Round, dt: i64)
    requires
        round_wf(*old(r)),
        0 <= dt <= DT_MAX,
        old(r).score.0 as int + old(r).balls@.len() as int <= i32::MAX as int,
    ensures
        round_wf(*final(r)),
        final(r).field == old(r).field,
        !old(r).state.running ==> *final(r) == *old(r),
        old(r).state.running ==> tick_rel(*old(r), *final(r), dt as int),
{
    if !r.state.running {
        return;
    }
    let ghost r0 = *r;
    let f: Field = r.field;
    crate::ball::move_ball(&mut r.balls, dt, &f);
    proof {
        assert(r.balls@ =~= moved_seq(r0.balls@, dt as int));
    }
    crate::ball::ball_wall_collision(&mut r.balls, &f);
    proof {
        assert(r.balls@ =~= wall_seq(moved_seq(r0.balls@, dt as int), f));
    }
    let pad: Option<Paddle> = r.paddle;
    match pad {
        Some(p) => {
            crate::ball::ball_paddle_collision(&mut r.balls, &p, &f);
            proof {
                assert(r.balls@ =~= paddle_seq(
                    wall_seq(moved_seq(r0.balls@, dt as int), f),
                    p,
                ));
            }
        },
        None => {},
    }
    let ghost m3 = scanned_balls(r0, dt as int);
    proof {
        assert(r.balls@ == m3);
    }
    let isl_opt: Option<Island> = r.island;
    match isl_opt {
        Some(isl_v) => {
            let mut isl: Island = isl_v;
            crate::ball::ball_island_collision(&mut r.balls, &mut isl, &mut r.score, &f);
            r.island = Some(isl);
            let ghost s0 = r0.score.0 as int;
            let ghost after = island_balls(m3, isl_v, s0);
            let ghost sps = spawn_speeds(m3, isl_v, s0);
            let ghost bd = r.balls@;
            let ghost sp_seq = bd.subrange(m3.len() as int, bd.len() as int);
            proof {
                lemma_hits_bounds(m3, isl_v);
                assert(bd.take(m3.len() as int) =~= after);
                assert(bd =~= after + sp_seq);
                assert forall|i: int| 0 <= i < sp_seq.len() implies !ball_exits(sp_seq[i], f) by {
                    assert(sp_seq[i] == bd[m3.len() + i]);
                    assert(ball_wf(bd[m3.len() + i], f));
                }
                lemma_survivors_concat(after, sp_seq, f);
                lemma_survivors_all_live(sp_seq, f);
            }
            ball_despawn(r);
            proof {
                let surv = survivors(after, f);
                assert(survivors(bd, f) == surv + sp_seq);
                if survivors(bd, f).len() == 0 && bd.len() > 0 {
                    assert(surv.len() == 0 && sps.len() == 0 && after.len() > 0);
                } else {
                    assert(r.balls@ == surv + sp_seq);
                    assert(r.balls@.take(surv.len() as int) =~= surv);
                    assert forall|j: int| 0 <= j < sps.len() implies is_spawned_ball(
                        r.balls@[surv.len() + j],
                        f,
                        sps[j],
                    ) by {
                        assert(r.balls@[surv.len() + j] == sp_seq[j]);
                        assert(sp_seq[j] == bd[m3.len() + j]);
                    }
                }
            }
        },
        None => {
            ball_despawn(r);
        },
    }
}

/// One look at the external signals, once per frame: a quit request ends
/// the whole process (the caller acts on the returned flag); otherwise a
/// pending start signal is consumed and, if no round is running, starts
/// one.
pub fn update_game(r: &mut Round, quit_requested: bool, start: Option<GameStartEvent>) -> (quit:
    bool)
    requires
        round_wf(*old(r)),
    ensures
        quit == quit_requested,
        round_wf(*final(r)),
        quit_requested ==> *final(r) == *old(r),
        !quit_requested && !old(r).state.running && start is Some ==> round_started(
            *old(r),
            *final(r),
        ),
        !quit_requested && (old(r).state.running || start is None) ==> *final(r) == *old(r),
{
    if quit_requested {
        return true;
    }
    match start {
        Some(_) => {
            if !r.state.running {
                start_round(r);
            }
        },
        None => {},
    }
    false
}

} // verus!
