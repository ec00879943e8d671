//! Fixed configuration of the scene and the saturating arithmetic on coordinates.
use vstd::prelude::*;

verus! {

/// One world unit, in nano-units.
pub const UNIT: i64 = 1_000_000_000;

/// Viewport width (1280 units).
pub const WINDOW_WIDTH: i64 = 1280 * UNIT;

/// Viewport height (720 units).
pub const WINDOW_HEIGHT: i64 = 720 * UNIT;

/// Half of the viewport width: the right edge lies at `HALF_WIDTH`, the left at its negation.
pub const HALF_WIDTH: i64 = 640 * UNIT;

/// Half of the viewport height.
pub const HALF_HEIGHT: i64 = 360 * UNIT;

/// Width of the player's box (30 units).
pub const PLAYER_WIDTH: i64 = 30 * UNIT;

/// Height of the player's box (120 units).
pub const PLAYER_HEIGHT: i64 = 120 * UNIT;

/// The floor line: `-WINDOW_HEIGHT / 2 + PLAYER_HEIGHT / 2`, that is -300 units.
pub const FLOOR_Y: i64 = -300 * UNIT;

/// Gravity, 9.8 units per second squared: the per-frame vertical velocity
/// (nano-units per frame) drops by this much for each microsecond of a tick.
pub const GRAVITY: i64 = 9800;

/// Vertical velocity given by a jump: 10 units per frame.
pub const JUMP_VELOCITY: i64 = 10 * UNIT;

/// Player speed, 400 units per second, in nano-units per microsecond.
pub const PLAYER_SPEED: i64 = 400_000;

/// Bullet speed, 500 units per second, in nano-units per microsecond.
pub const BULLET_SPEED: i64 = 500_000;

/// Target speed, 100 units per second, in nano-units per microsecond.
pub const TARGET_SPEED: i64 = 100_000;

/// Side of a bullet's square box (15 units).
pub const BULLET_SIZE: i64 = 15 * UNIT;

/// Side of a target's square box (50 units).
pub const TARGET_SIZE: i64 = 50 * UNIT;

/// Period of the target spawn timer: one second.
pub const SPAWN_INTERVAL: u64 = 1_000_000;

/// Longest tick the simulation accepts: one minute.
pub const MAX_TICK: u64 = 60_000_000;

/// Largest speed a moving entity may have: one unit per microsecond.
pub const MAX_SPEED: i64 = UNIT;

/// `v` brought into the range of `i64`.
pub open spec fn clamp(v: int) -> int {
    if v < i64::MIN {
        i64::MIN as int
    } else if v > i64::MAX {
        i64::MAX as int
    } else {
        v
    }
}

/// `a + b`, saturating at the bounds of `i64`.
pub fn sat_add(a: i64, b: i64) -> (r: i64)
    ensures
        r == clamp(a + b),
{
    let s: i128 = a as i128 + b as i128;
    narrow(s)
}

/// `v` brought into the range of `i64`.
pub fn narrow(v: i128) -> (r: i64)
    ensures
        r == clamp(v as int),
{
    if v < i64::MIN as i128 {
        i64::MIN
    } else if v > i64::MAX as i128 {
        i64::MAX
    } else {
        v as i64
    }
}

/// The displacement `dir * speed * dt`, in nano-units.
pub fn displacement(dir: i64, speed: i64, dt: u64) -> (r: i128)
    requires
        -2 <= dir <= 2,
        0 <= speed <= MAX_SPEED,
        dt <= MAX_TICK,
    ensures
        r == dir * speed * dt,
        -2 * MAX_SPEED * MAX_TICK <= r <= 2 * MAX_SPEED * MAX_TICK,
{
    assert(-2 * MAX_SPEED <= dir * speed <= 2 * MAX_SPEED
        && -2 * MAX_SPEED * MAX_TICK <= dir * speed * dt <= 2 * MAX_SPEED * MAX_TICK) by (nonlinear_arith)
        requires
            -2 <= dir <= 2,
            0 <= speed <= MAX_SPEED,
            dt <= MAX_TICK,
            MAX_SPEED == 1_000_000_000,
            MAX_TICK == 60_000_000,
    ;
    (dir as i128) * (speed as i128) * (dt as i128)
}

} // verus!
