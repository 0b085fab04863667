//! Whole-round scenarios driven through `tick`.

use island_pong::ball::{Ball, BALL_RADIUS, BALL_SPEED};
use island_pong::field::Field;
use island_pong::game::{new_round, start_round, tick, update_game, GameStartEvent, GameState, Round};
use island_pong::island::spawn_island;
use island_pong::player::spawn_player;
use island_pong::score::{SaveData, Score};

fn test_field() -> Field {
    Field { half_width: 200_000_000, half_height: 256_000_000 }
}

fn active_round(field: Field, score: i32, balls: Vec<Ball>, save: SaveData) -> Round {
    Round {
        state: GameState { running: true },
        score: Score(score),
        field,
        paddle: Some(spawn_player(&field)),
        island: Some(spawn_island(&field)),
        balls,
        save,
    }
}

#[test]
fn serve_position_advances_by_horizontal_velocity() {
    // One simulated second at 100 units/second moves the ball 100 units.
    let f = test_field();
    let ball = Ball { x: 0, y: 196_000_000, vx: 100_000, vy: -438_748 };
    let mut r = active_round(f, 0, vec![ball], SaveData::empty_record());
    tick(&mut r, 1000);
    assert_eq!(r.balls.len(), 1);
    assert_eq!(r.balls[0].x, 100_000_000);
    assert_eq!(r.balls[0].y, 196_000_000 - 438_748_000);
    assert!(r.state.running);
    assert_eq!(r.score.0, 0);
}

#[test]
fn milestone_hit_shrinks_island_and_spawns_ball() {
    // A hit at score 4 reaches the milestone 5: the island narrows by 5
    // units and a second ball appears at 1.2 times the trigger's speed.
    let f = test_field();
    let ball = Ball { x: 0, y: 236_000_000, vx: 0, vy: 450_000 };
    let mut r = active_round(f, 4, vec![ball], SaveData::empty_record());
    tick(&mut r, 0);
    assert_eq!(r.score.0, 5);
    assert_eq!(r.island.as_ref().unwrap().width, 195_000_000);
    assert_eq!(r.balls.len(), 2);
    // The trigger ball bounced downward and sped up by exactly 6/5.
    assert_eq!(r.balls[0].vx, 0);
    assert_eq!(r.balls[0].vy, -540_000);
    // The spawned ball serves downward at the scaled speed, within the
    // rounding of the integer normalization.
    let (sx, sy) = (r.balls[1].vx, r.balls[1].vy);
    assert!(sy < 0);
    assert_eq!(r.balls[1].x, 0);
    assert_eq!(r.balls[1].y, 196_000_000);
    let spd2 = sx * sx + sy * sy;
    assert!(spd2 >= 539_998 * 539_998, "spawned too slow: {}", spd2);
    assert!(spd2 <= 540_540 * 540_540, "spawned too fast: {}", spd2);
}

#[test]
fn plain_hit_scores_without_milestone() {
    let f = test_field();
    let ball = Ball { x: 40_000_000, y: 236_000_000, vx: 7_000, vy: 450_000 };
    let mut r = active_round(f, 2, vec![ball], SaveData::empty_record());
    tick(&mut r, 0);
    assert_eq!(r.score.0, 3);
    assert_eq!(r.island.as_ref().unwrap().width, 200_000_000);
    assert_eq!(r.balls.len(), 1);
    assert_eq!(r.balls[0].vx, 7_000);
    assert_eq!(r.balls[0].vy, -450_000);
}

#[test]
fn two_milestones_in_one_tick_shrink_twice_and_spawn_twice() {
    // Six balls all hitting at score 4 take the score through 5 and 10:
    // two milestones, two spawned balls, two width steps.
    let f = test_field();
    let mut balls = Vec::new();
    for i in 0..6 {
        balls.push(Ball { x: -50_000_000 + i * 20_000_000, y: 236_000_000, vx: 0, vy: 300_000 });
    }
    let mut r = active_round(f, 4, balls, SaveData::empty_record());
    tick(&mut r, 0);
    assert_eq!(r.score.0, 10);
    assert_eq!(r.island.as_ref().unwrap().width, 190_000_000);
    assert_eq!(r.balls.len(), 8);
    // The first scanned ball reached 5 and the last reached 10; both were
    // scaled, the others only bounced.
    assert_eq!(r.balls[0].vy, -360_000);
    assert_eq!(r.balls[1].vy, -300_000);
    assert_eq!(r.balls[4].vy, -300_000);
    assert_eq!(r.balls[5].vy, -360_000);
}

#[test]
fn hits_this_tick_use_the_unshrunk_width() {
    // Effects apply after the scan: a ball at the edge of the full width
    // still hits in the same tick as the milestone that narrows it.
    let f = test_field();
    let trigger = Ball { x: 0, y: 236_000_000, vx: 0, vy: 300_000 };
    let edge = Ball { x: 99_000_000, y: 236_000_000, vx: 0, vy: 250_000 };
    let mut r = active_round(f, 3, vec![trigger, edge], SaveData::empty_record());
    tick(&mut r, 0);
    // trigger scores 4, edge scores 5 (a milestone): both bounced.
    assert_eq!(r.score.0, 5);
    assert_eq!(r.balls[0].vy, -300_000);
    assert_eq!(r.balls[1].vy, -300_000);
    assert_eq!(r.island.as_ref().unwrap().width, 195_000_000);
    // Next tick the narrowed island no longer reaches the edge ball.
    let mut r2 = r;
    r2.balls.truncate(2);
    r2.balls[0] = Ball { x: 0, y: 100_000_000, vx: 0, vy: -1 };
    r2.balls[1] = Ball { x: 99_000_000, y: 236_000_000, vx: 0, vy: 250_000 };
    tick(&mut r2, 0);
    assert_eq!(r2.score.0, 5);
    assert_eq!(r2.balls[1].vy, 250_000);
}

#[test]
fn one_of_two_balls_exits_round_goes_on() {
    // The exiting ball is removed; the other remains, the round stays
    // active and the exit itself does not touch the score.
    let f = test_field();
    let exiting = Ball { x: 0, y: -243_000_000, vx: 0, vy: -1_000 };
    let staying = Ball { x: 50_000_000, y: 100_000_000, vx: 0, vy: -1_000 };
    let mut r = active_round(f, 9, vec![exiting, staying], SaveData::empty_record());
    tick(&mut r, 1000);
    assert_eq!(r.balls.len(), 1);
    assert_eq!(r.balls[0].x, 50_000_000);
    assert_eq!(r.balls[0].y, 99_000_000);
    assert!(r.state.running);
    assert!(r.paddle.is_some());
    assert!(r.island.is_some());
    assert_eq!(r.score.0, 9);
}

#[test]
fn last_ball_exit_ends_round_and_persists_score() {
    // The last ball leaves at score 37 with no prior record: the round
    // winds down and the record becomes 37/37.
    let f = test_field();
    let exiting = Ball { x: 0, y: -243_000_000, vx: 0, vy: -1_000 };
    let mut r = active_round(f, 37, vec![exiting], SaveData::empty_record());
    tick(&mut r, 1000);
    assert!(!r.state.running);
    assert!(r.balls.is_empty());
    assert!(r.paddle.is_none());
    assert!(r.island.is_none());
    assert_eq!(r.save.high_score, 37);
    assert_eq!(r.save.last_score, 37);
    assert_eq!(r.score.0, 37);
}

#[test]
fn last_ball_exit_keeps_higher_record() {
    let f = test_field();
    let exiting = Ball { x: 0, y: -250_000_000, vx: 0, vy: -900_000 };
    let prior = SaveData { high_score: 50, last_score: 41 };
    let mut r = active_round(f, 12, vec![exiting], prior);
    tick(&mut r, 100);
    assert!(!r.state.running);
    assert_eq!(r.save.high_score, 50);
    assert_eq!(r.save.last_score, 12);
}

#[test]
fn idle_round_is_left_untouched() {
    let f = test_field();
    let mut r = new_round(f, SaveData::empty_record());
    tick(&mut r, 1000);
    assert!(!r.state.running);
    assert!(r.balls.is_empty());
    assert_eq!(r.score.0, 0);
}

#[test]
fn ball_exits_exactly_at_floor_boundary() {
    // The bottom edge reaching the floor counts as an exit.
    let f = test_field();
    let ball = Ball { x: 0, y: -f.half_height + BALL_RADIUS + 1_000, vx: 0, vy: -1 };
    let mut r = active_round(f, 1, vec![ball], SaveData::empty_record());
    tick(&mut r, 1000);
    assert!(!r.state.running);
    assert!(r.balls.is_empty());
}

#[test]
fn start_signal_starts_one_round() {
    let f = test_field();
    let mut r = new_round(f, SaveData { high_score: 8, last_score: 3 });
    let quit = update_game(&mut r, false, Some(GameStartEvent));
    assert!(!quit);
    assert!(r.state.running);
    assert_eq!(r.score.0, 0);
    assert_eq!(r.balls.len(), 1);
    assert!(r.paddle.is_some());
    assert!(r.island.is_some());
    assert_eq!(r.island.as_ref().unwrap().width, 200_000_000);
    assert_eq!(r.save.high_score, 8);
    // The serve: at the serve position, heading downward at the base speed.
    let b = r.balls[0];
    assert_eq!(b.x, 0);
    assert_eq!(b.y, 196_000_000);
    assert!(b.vy < 0);
    assert!(b.vx >= -BALL_SPEED && b.vx <= BALL_SPEED);
    let spd2 = b.vx * b.vx + b.vy * b.vy;
    assert!(spd2 >= 449_998 * 449_998, "serve too slow: {}", spd2);
    assert!(spd2 <= 450_450 * 450_450, "serve too fast: {}", spd2);
}

#[test]
fn start_signal_is_ignored_while_running() {
    let f = test_field();
    let ball = Ball { x: 0, y: 100_000_000, vx: 0, vy: -450_000 };
    let mut r = active_round(f, 21, vec![ball], SaveData::empty_record());
    let quit = update_game(&mut r, false, Some(GameStartEvent));
    assert!(!quit);
    assert_eq!(r.score.0, 21);
    assert_eq!(r.balls.len(), 1);
}

#[test]
fn quit_request_wins_over_start() {
    let f = test_field();
    let mut r = new_round(f, SaveData::empty_record());
    let quit = update_game(&mut r, true, Some(GameStartEvent));
    assert!(quit);
    assert!(!r.state.running);
    assert!(r.balls.is_empty());
}

#[test]
fn round_restarts_after_ending() {
    let f = test_field();
    let exiting = Ball { x: 0, y: -243_000_000, vx: 0, vy: -1_000 };
    let mut r = active_round(f, 6, vec![exiting], SaveData::empty_record());
    tick(&mut r, 1000);
    assert!(!r.state.running);
    assert_eq!(r.save.last_score, 6);
    start_round(&mut r);
    assert!(r.state.running);
    assert_eq!(r.score.0, 0);
    assert_eq!(r.balls.len(), 1);
    assert_eq!(r.save.last_score, 6);
}
