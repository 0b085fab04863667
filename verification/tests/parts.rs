//! Unit tests of the individual components: square root, serve, walls,
//! paddle, island, persistence.

use island_pong::ball::{
    ball_paddle_collision, ball_wall_collision, get_random_velocity, move_ball, serve_velocity,
    spawn_ball, spawn_ball_with_velocity, Ball, BALL_RADIUS, BALL_SPEED, VEL_CAP,
};
use island_pong::field::Field;
use island_pong::island::{shrink_island, spawn_island, ISLAND_MIN_WIDTH};
use island_pong::player::{spawn_player, update_player, PLAYER_WIDTH};
use island_pong::score::{save_data, SaveData};
use island_pong::sqrt::isqrt;

fn test_field() -> Field {
    Field { half_width: 200_000_000, half_height: 256_000_000 }
}

#[test]
fn isqrt_exact_values() {
    assert_eq!(isqrt(0), 0);
    assert_eq!(isqrt(1), 1);
    assert_eq!(isqrt(24), 4);
    assert_eq!(isqrt(25), 5);
    assert_eq!(isqrt(291_600_000_000), 540_000);
    assert_eq!(isqrt(2_000_000_000_000_000_000), 1_414_213_562);
}

#[test]
fn serve_velocity_straight_down() {
    // A zero horizontal draw serves straight down at full speed.
    let v = serve_velocity(0, BALL_SPEED);
    assert_eq!(v.0, 0);
    assert_eq!(v.1, -BALL_SPEED);
}

#[test]
fn serve_velocity_diagonal() {
    // The extreme draw gives the 45-degree serve: norm(1000,-1000) is
    // floor(sqrt(2_000_000)) = 1414.
    let v = serve_velocity(1000, 450_000);
    assert_eq!(v.0, 450_000_000 / 1414);
    assert_eq!(v.1, -(450_000_000 / 1414));
    let w = serve_velocity(-1000, 450_000);
    assert_eq!(w.0, -(450_000_000 / 1414));
    assert_eq!(w.1, -(450_000_000 / 1414));
}

#[test]
fn random_serve_is_downward_and_at_speed() {
    for _ in 0..50 {
        let v = get_random_velocity(BALL_SPEED);
        assert!(v.1 < 0);
        assert!(v.0 >= -BALL_SPEED && v.0 <= BALL_SPEED);
        let spd2 = v.0 * v.0 + v.1 * v.1;
        assert!(spd2 >= 449_998 * 449_998);
        assert!(spd2 <= 450_450 * 450_450);
    }
}

#[test]
fn spawned_ball_sits_at_serve_position() {
    let f = test_field();
    let b = spawn_ball(&f);
    assert_eq!(b.x, 0);
    assert_eq!(b.y, 196_000_000);
    assert!(b.vy < 0);
    let c = spawn_ball_with_velocity(&f, 123, -456);
    assert_eq!((c.x, c.y, c.vx, c.vy), (0, 196_000_000, 123, -456));
}

#[test]
fn motion_is_velocity_times_elapsed() {
    let f = test_field();
    let mut balls = vec![
        Ball { x: 1_000_000, y: 2_000_000, vx: 300, vy: -400 },
        Ball { x: -5_000_000, y: 0, vx: -10, vy: 25 },
    ];
    move_ball(&mut balls, 2000, &f);
    assert_eq!((balls[0].x, balls[0].y), (1_600_000, 1_200_000));
    assert_eq!((balls[1].x, balls[1].y), (-5_020_000, 50_000));
    assert_eq!((balls[0].vx, balls[0].vy), (300, -400));
}

#[test]
fn right_wall_forces_velocity_left() {
    let f = test_field();
    let mut balls = vec![
        Ball { x: 190_000_000, y: 0, vx: 300_000, vy: 10 },
        Ball { x: 190_000_000, y: 0, vx: -300_000, vy: 10 },
    ];
    ball_wall_collision(&mut balls, &f);
    assert_eq!(balls[0].vx, -300_000);
    assert_eq!(balls[1].vx, -300_000);
}

#[test]
fn left_wall_forces_velocity_right() {
    let f = test_field();
    let mut balls = vec![Ball { x: -190_000_000, y: 0, vx: -250_000, vy: 10 }];
    ball_wall_collision(&mut balls, &f);
    assert_eq!(balls[0].vx, 250_000);
}

#[test]
fn ceiling_forces_velocity_down() {
    let f = test_field();
    let mut balls = vec![Ball { x: 0, y: 250_000_000, vx: 5, vy: 400_000 }];
    ball_wall_collision(&mut balls, &f);
    assert_eq!(balls[0].vy, -400_000);
    assert_eq!(balls[0].vx, 5);
}

#[test]
fn ball_inside_field_keeps_velocity() {
    let f = test_field();
    let mut balls = vec![Ball { x: 0, y: 0, vx: 111, vy: -222 }];
    ball_wall_collision(&mut balls, &f);
    assert_eq!((balls[0].vx, balls[0].vy), (111, -222));
}

#[test]
fn paddle_touch_forces_velocity_up() {
    let f = test_field();
    let p = spawn_player(&f);
    // Bottom edge between the paddle's baseline and its top face.
    let touching = Ball { x: 30_000_000, y: p.y + BALL_RADIUS + 1_000_000, vx: 7, vy: -350_000 };
    let beside = Ball { x: 90_000_000, y: p.y + BALL_RADIUS + 1_000_000, vx: 7, vy: -350_000 };
    let mut balls = vec![touching, beside];
    ball_paddle_collision(&mut balls, &p, &f);
    assert_eq!(balls[0].vy, 350_000);
    assert_eq!(balls[1].vy, -350_000);
}

#[test]
fn paddle_clamps_at_field_edges() {
    let f = test_field();
    let mut p = spawn_player(&f);
    assert_eq!(p.x, 0);
    update_player(&mut p, 300_000_000, &f);
    assert_eq!(p.x, f.half_width - PLAYER_WIDTH / 2);
    update_player(&mut p, -1_000_000_000, &f);
    assert_eq!(p.x, -f.half_width + PLAYER_WIDTH / 2);
    update_player(&mut p, 40_000_000, &f);
    assert_eq!(p.x, -f.half_width + PLAYER_WIDTH / 2 + 40_000_000);
}

#[test]
fn island_shrinks_to_its_floor() {
    let f = test_field();
    let mut isl = spawn_island(&f);
    assert_eq!(isl.width, 200_000_000);
    for _ in 0..25 {
        shrink_island(&mut isl);
    }
    assert_eq!(isl.width, ISLAND_MIN_WIDTH);
    shrink_island(&mut isl);
    assert_eq!(isl.width, ISLAND_MIN_WIDTH);
}

#[test]
fn save_merges_high_and_last_score() {
    let empty = SaveData::empty_record();
    assert_eq!((empty.high_score, empty.last_score), (-1, -1));
    let once = save_data(37, empty);
    assert_eq!((once.high_score, once.last_score), (37, 37));
    let lower = save_data(12, once);
    assert_eq!((lower.high_score, lower.last_score), (37, 12));
    let higher = save_data(99, lower);
    assert_eq!((higher.high_score, higher.last_score), (99, 99));
}

#[test]
fn saving_twice_equals_saving_once() {
    let r = SaveData { high_score: 20, last_score: 5 };
    let once = save_data(33, r);
    let twice = save_data(33, save_data(33, r));
    assert_eq!(once.high_score, twice.high_score);
    assert_eq!(once.last_score, twice.last_score);
    assert!(save_data(33, r).high_score >= r.high_score);
    assert!(save_data(3, r).high_score >= r.high_score);
}

#[test]
fn velocity_cap_bounds_scaled_serves() {
    let v = serve_velocity(500, VEL_CAP);
    assert!(v.0 >= -VEL_CAP && v.0 <= VEL_CAP);
    assert!(v.1 >= -VEL_CAP && v.1 <= 0);
}
