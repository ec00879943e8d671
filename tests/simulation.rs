use shooter::config::{
    BULLET_SIZE, BULLET_SPEED, FLOOR_Y, HALF_HEIGHT, HALF_WIDTH, JUMP_VELOCITY, PLAYER_SPEED,
    SPAWN_INTERVAL, TARGET_SIZE, TARGET_SPEED, UNIT,
};
use shooter::entity::{collide, Body};
use shooter::player::{Facing, Key, Player};
use shooter::timer::SpawnTimer;
use shooter::world::{Input, Role, World};

fn no_keys() -> Input {
    Input { held: vec![], pressed: vec![] }
}

fn body(handle: u64, x: i64, y: i64, size: i64, dir: i64, speed: i64) -> Body {
    Body { handle, x, y, z: 0, width: size, height: size, dir, speed }
}

#[test]
fn setup_places_player_at_top() {
    let w = World::setup();
    assert_eq!(w.player.x, 0);
    assert_eq!(w.player.y, HALF_HEIGHT);
    assert_eq!(w.player.vy, 0);
    assert_eq!(w.player.speed, PLAYER_SPEED);
    assert_eq!(w.player.facing, Facing::Right);
    assert!(w.bullets.is_empty());
    assert!(w.targets.is_empty());
    assert_eq!(w.timer, SpawnTimer { elapsed: 0, period: SPAWN_INTERVAL });
}

#[test]
fn floor_line_is_minus_three_hundred_units() {
    assert_eq!(FLOOR_Y, -360 * UNIT + 60 * UNIT);
}

#[test]
fn gravity_uses_velocity_of_previous_frame() {
    let mut p = Player::new();
    p.y = 0;
    p.physics(1_000_000);
    // Position moves by the old velocity (zero), then gravity acts: 9.8 units.
    assert_eq!(p.y, 0);
    assert_eq!(p.vy, -9_800_000_000);
    p.physics(1_000_000);
    assert_eq!(p.y, -9_800_000_000);
    assert_eq!(p.vy, -19_600_000_000);
}

#[test]
fn gravity_settles_on_the_floor() {
    let mut p = Player::new();
    let mut ticks = 0;
    while !(p.y <= FLOOR_Y && p.vy == 0) {
        p.physics(16_667);
        ticks += 1;
        assert!(ticks < 100_000);
    }
    let rest = p;
    for _ in 0..10 {
        p.physics(16_667);
    }
    assert_eq!(p, rest);
}

#[test]
fn landing_keeps_the_overshoot() {
    let mut p = Player::new();
    p.y = 0;
    for _ in 0..9 {
        p.physics(1_000_000);
    }
    // 0, -9.8, -29.4, ..., -274.4 (still above the floor), then -352.8.
    assert_eq!(p.y, -352_800_000_000);
    assert_eq!(p.vy, 0);
    p.physics(1_000_000);
    assert_eq!(p.y, -352_800_000_000);
}

#[test]
fn landing_clamps_velocity_only() {
    let mut p = Player::new();
    p.y = FLOOR_Y + UNIT;
    p.vy = -5 * UNIT;
    p.physics(16_667);
    assert_eq!(p.y, FLOOR_Y - 4 * UNIT);
    assert_eq!(p.vy, 0);
}

#[test]
fn jump_ignored_in_the_air() {
    let mut p = Player::new();
    p.y = FLOOR_Y + 1;
    p.vy = -3;
    p.jump(&vec![Key::Up]);
    assert_eq!(p.vy, -3);
}

#[test]
fn jump_from_ground_sets_launch_velocity() {
    let mut p = Player::new();
    p.y = FLOOR_Y;
    p.jump(&vec![Key::Other, Key::W]);
    assert_eq!(p.vy, JUMP_VELOCITY);
    let mut q = Player::new();
    q.y = FLOOR_Y - 7;
    q.vy = 0;
    q.jump(&vec![Key::Up]);
    assert_eq!(q.vy, 10 * UNIT);
    let mut r = Player::new();
    r.y = FLOOR_Y;
    r.jump(&vec![Key::Left]);
    assert_eq!(r.vy, 0);
}

#[test]
fn opposite_keys_cancel() {
    let mut p = Player::new();
    p.steer(&vec![Key::Left, Key::Right], 16_667);
    assert_eq!(p.x, 0);
    assert_eq!(p.facing, Facing::Right);
    p.steer(&vec![Key::D, Key::A], 1_000_000);
    assert_eq!(p.x, 0);
    assert_eq!(p.facing, Facing::Left);
}

#[test]
fn steering_moves_by_speed_times_time() {
    let mut p = Player::new();
    p.steer(&vec![Key::Left], 500_000);
    assert_eq!(p.x, -200 * UNIT);
    assert_eq!(p.facing, Facing::Left);
    p.steer(&vec![Key::Right, Key::D, Key::Other], 1_000_000);
    assert_eq!(p.x, 600 * UNIT);
    assert_eq!(p.facing, Facing::Right);
}

#[test]
fn fire_spawns_bullet_facing_player_direction() {
    let mut w = World::setup();
    w.player.x = 7;
    w.player.y = 11;
    w.player.facing = Facing::Left;
    let input = Input { held: vec![], pressed: vec![Key::Return] };
    assert_eq!(w.player_action(&input), Some(0));
    assert_eq!(w.bullets, vec![body(0, 7, 11, BULLET_SIZE, -1, BULLET_SPEED)]);
    assert_eq!(w.next_handle, 1);
    assert_eq!(w.player_action(&no_keys()), None);
    assert_eq!(w.bullets.len(), 1);
}

#[test]
fn bullet_destroyed_at_right_edge() {
    let mut w = World::setup();
    w.player.y = 0;
    w.spawn_bullet();
    // 5 units per tick of 10 ms.
    for _ in 0..127 {
        w.move_bullet(10_000);
    }
    assert_eq!(w.bullets.len(), 1);
    assert_eq!(w.bullets[0].x, 635 * UNIT);
    w.move_bullet(10_000);
    assert!(w.bullets.is_empty());
}

#[test]
fn bullet_round_trip_leaves_no_bullets() {
    let mut w = World::setup();
    w.player.y = 0;
    let fire = Input { held: vec![], pressed: vec![Key::Return] };
    w.step(16_667, &fire, -UNIT);
    assert_eq!(w.bullets.len(), 1);
    for _ in 0..200 {
        w.step(16_667, &no_keys(), -UNIT);
    }
    assert!(w.bullets.is_empty());
}

#[test]
fn bullet_leaves_at_top_edge() {
    let mut w = World::setup();
    assert_eq!(w.player.y, HALF_HEIGHT);
    w.spawn_bullet();
    w.move_bullet(0);
    assert!(w.bullets.is_empty());
}

#[test]
fn target_spawn_cadence() {
    let mut w = World::setup();
    let mut spawned = 0;
    for _ in 0..35 {
        if w.target_spawner(100_000, -UNIT).is_some() {
            spawned += 1;
        }
    }
    assert_eq!(spawned, 3);
    assert_eq!(w.targets.len(), 3);
    assert_eq!(w.targets[0], body(0, HALF_WIDTH, -UNIT, TARGET_SIZE, -1, TARGET_SPEED));
}

#[test]
fn steps_spawn_one_target_per_second() {
    let mut w = World::setup();
    for _ in 0..25 {
        w.step(200_000, &no_keys(), -2 * UNIT);
    }
    assert_eq!(w.targets.len(), 5);
    assert_eq!(w.next_handle, 5);
}

#[test]
fn timer_keeps_remainder() {
    let mut t = SpawnTimer::new();
    assert!(!t.tick(700_000));
    assert!(t.tick(700_000));
    assert_eq!(t.elapsed, 400_000);
}

#[test]
fn random_spawn_height_within_range() {
    let mut w = World::setup();
    for _ in 0..5 {
        w.tick(1_000_000, &no_keys());
    }
    assert!(!w.targets.is_empty());
    for t in &w.targets {
        assert!(t.y >= FLOOR_Y && t.y < 0);
    }
}

#[test]
fn target_destroyed_at_left_edge() {
    let mut w = World::setup();
    w.targets.push(body(3, -HALF_WIDTH + 10 * UNIT + 1, 0, TARGET_SIZE, -1, TARGET_SPEED));
    w.next_handle = 4;
    w.move_target(100_000);
    assert_eq!(w.targets.len(), 1);
    assert_eq!(w.targets[0].x, -HALF_WIDTH + 1);
    w.move_target(1);
    assert!(w.targets.is_empty());
}

#[test]
fn collision_destroys_both() {
    let mut w = World::setup();
    w.bullets.push(body(0, 100 * UNIT, 0, BULLET_SIZE, 1, BULLET_SPEED));
    w.targets.push(body(1, 105 * UNIT, 0, TARGET_SIZE, -1, TARGET_SPEED));
    w.next_handle = 3;
    w.target_collision();
    assert!(w.bullets.is_empty());
    assert!(w.targets.is_empty());
}

#[test]
fn distant_pair_survives() {
    let mut w = World::setup();
    w.bullets.push(body(0, 100 * UNIT, 0, BULLET_SIZE, 1, BULLET_SPEED));
    w.targets.push(body(1, 1100 * UNIT, 0, TARGET_SIZE, -1, TARGET_SPEED));
    w.next_handle = 3;
    w.target_collision();
    assert_eq!(w.bullets.len(), 1);
    assert_eq!(w.targets.len(), 1);
}

#[test]
fn touching_boxes_do_not_collide() {
    let a = body(0, 0, 0, 10, 1, 0);
    let b = body(1, 10, 0, 10, 1, 0);
    assert!(!collide(&a, &b));
    let c = body(2, 9, 0, 10, 1, 0);
    assert!(collide(&a, &c));
}

#[test]
fn bullet_hits_only_first_target() {
    let mut w = World::setup();
    w.bullets.push(body(0, 0, 0, BULLET_SIZE, 1, BULLET_SPEED));
    w.targets.push(body(1, 5 * UNIT, 0, TARGET_SIZE, -1, TARGET_SPEED));
    w.targets.push(body(2, -5 * UNIT, 0, TARGET_SIZE, -1, TARGET_SPEED));
    w.next_handle = 3;
    w.target_collision();
    assert!(w.bullets.is_empty());
    assert_eq!(w.targets.len(), 1);
    assert_eq!(w.targets[0].handle, 2);
}

#[test]
fn destroy_twice_same_as_once() {
    let mut once = World::setup();
    once.player.y = 0;
    once.spawn_bullet();
    once.spawn_bullet();
    once.spawn_target(-UNIT);
    let mut twice = once.clone();
    once.destroy(1);
    twice.destroy(1);
    twice.destroy(1);
    assert_eq!(once.bullets, twice.bullets);
    assert_eq!(once.targets, twice.targets);
    assert_eq!(once.bullets.len(), 1);
    assert_eq!(once.bullets[0].handle, 0);
    twice.destroy(2);
    assert!(twice.targets.is_empty());
    twice.destroy(99);
    assert_eq!(twice.bullets.len(), 1);
}

#[test]
fn shapes_list_player_then_bullets_then_targets() {
    let mut w = World::setup();
    w.player.y = 0;
    w.spawn_bullet();
    w.spawn_target(-UNIT);
    let shapes = w.shapes();
    assert_eq!(shapes.len(), 3);
    assert_eq!(shapes[0].role, Role::Player);
    assert_eq!((shapes[0].width, shapes[0].height), (30 * UNIT, 120 * UNIT));
    assert_eq!(shapes[1].role, Role::Bullet);
    assert_eq!((shapes[1].width, shapes[1].height), (BULLET_SIZE, BULLET_SIZE));
    assert_eq!(shapes[2].role, Role::Target);
    assert_eq!((shapes[2].x, shapes[2].y), (HALF_WIDTH, -UNIT));
}

#[test]
fn lookup_of_missing_handle_is_empty() {
    let mut w = World::setup();
    w.player.y = 0;
    let b = w.spawn_bullet();
    let t = w.spawn_target(-UNIT);
    assert_eq!(w.bullet(b).map(|x| x.handle), Some(b));
    assert_eq!(w.target(b), None);
    assert_eq!(w.target(t).map(|x| x.y), Some(-UNIT));
    w.destroy(t);
    assert_eq!(w.target(t), None);
}
