//! The player: gravity and landing, jumping, horizontal steering.
use vstd::prelude::*;
use crate::config::{
    clamp, narrow, sat_add, FLOOR_Y, GRAVITY, HALF_HEIGHT, JUMP_VELOCITY, MAX_SPEED, MAX_TICK,
    PLAYER_SPEED,
};

verus! {

/// Which way the player faces; bullets leave in this direction.
#[derive(Clone, Copy, Debug, PartialEq, Eq, Structural)]
pub enum Facing {
    Left,
    Right,
}

/// The keys the simulation reads.
#[derive(Clone, Copy, Debug, PartialEq, Eq, Structural)]
pub enum Key {
    Up,
    W,
    Left,
    Right,
    A,
    D,
    Return,
    Other,
}

/// The single player entity.
#[derive(Clone, Copy, Debug, PartialEq, Eq, Structural)]
pub struct Player {
    pub x: i64,
    pub y: i64,
    /// Vertical velocity in nano-units per frame.
    pub vy: i64,
    /// Horizontal speed in nano-units per microsecond.
    pub speed: i64,
    pub facing: Facing,
}

/// Whether the player stands at or below the floor line.
pub open spec fn grounded(y: int) -> bool {
    y <= FLOOR_Y
}

/// One tick of gravity on `(y, vy)`: the position moves by the velocity of the
/// previous frame, then gravity acts while above the floor, and a falling player
/// at or below the floor stops.
pub open spec fn gravity_step(y: int, vy: int, dt: int) -> (int, int) {
    let y1 = clamp(y + vy);
    let v1 = if y1 > FLOOR_Y { clamp(vy - GRAVITY * dt) } else { vy };
    let v2 = if v1 < 0 && y1 <= FLOOR_Y { 0 } else { v1 };
    (y1, v2)
}

/// `n` ticks of gravity of length `dt` each.
pub open spec fn fall(y: int, vy: int, dt: int, n: nat) -> (int, int)
    decreases n,
{
    if n == 0 {
        (y, vy)
    } else {
        let s = gravity_step(y, vy, dt);
        fall(s.0, s.1, dt, (n - 1) as nat)
    }
}

/// Whether `k` is a jump key.
pub open spec fn is_jump(k: Key) -> bool {
    k == Key::Up || k == Key::W
}

/// Whether a jump key was freshly pressed.
pub open spec fn jump_pressed(pressed: Seq<Key>) -> bool {
    exists|i: int| 0 <= i < pressed.len() && is_jump(#[trigger] pressed[i])
}

/// Contribution of one held key to the horizontal direction.
pub open spec fn key_dir(k: Key) -> int {
    match k {
        Key::Left | Key::A => -1,
        Key::Right | Key::D => 1,
        _ => 0,
    }
}

/// Sum of the contributions of the held keys.
pub open spec fn steer_dir(held: Seq<Key>) -> int
    decreases held.len(),
{
    if held.len() == 0 {
        0
    } else {
        steer_dir(held.drop_last()) + key_dir(held.last())
    }
}

/// Facing after the held keys are read in order: the last key that contributed wins.
pub open spec fn facing_after(f: Facing, held: Seq<Key>) -> Facing
    decreases held.len(),
{
    if held.len() == 0 {
        f
    } else {
        let prev = facing_after(f, held.drop_last());
        let k = held.last();
        if key_dir(k) < 0 {
            Facing::Left
        } else if key_dir(k) > 0 {
            Facing::Right
        } else {
            prev
        }
    }
}

/// How many times `k` occurs in `s`.
pub open spec fn tally(s: Seq<Key>, k: Key) -> int
    decreases s.len(),
{
    if s.len() == 0 {
        0
    } else {
        tally(s.drop_last(), k) + if s.last() == k { 1int } else { 0int }
    }
}

/// Falling from rest above the floor with ticks of a fixed positive length, the
/// player comes to rest after finitely many ticks: at or below the floor, with
/// no vertical velocity, and every later tick leaves it where it is.
pub proof fn lemma_gravity_settles(y: i64, dt: u64) -> (n: nat)
    requires
        y > FLOOR_Y,
        1 <= dt <= MAX_TICK,
    ensures
        grounded(fall(y as int, 0, dt as int, n).0),
        fall(y as int, 0, dt as int, n).1 == 0,
        gravity_step(fall(y as int, 0, dt as int, n).0, 0, dt as int) == fall(y as int, 0, dt as int, n),
{
    lemma_comes_to_rest(y as int, 0, dt as int)
}

proof fn lemma_comes_to_rest(y: int, vy: int, dt: int) -> (n: nat)
    requires
        i64::MIN <= y <= i64::MAX,
        i64::MIN <= vy <= 0,
        1 <= dt <= MAX_TICK,
    ensures
        grounded(fall(y, vy, dt, n).0),
        fall(y, vy, dt, n).1 == 0,
        gravity_step(fall(y, vy, dt, n).0, 0, dt) == fall(y, vy, dt, n),
    decreases (if y > FLOOR_Y { y - FLOOR_Y } else { 0 }) * 2 + (if vy == 0 { 1int } else { 0int }),
{
    let s = gravity_step(y, vy, dt);
    if y <= FLOOR_Y && vy == 0 {
        assert(fall(y, vy, dt, 0) == (y, vy));
        0
    } else if y <= FLOOR_Y {
        assert(fall(s.0, s.1, dt, 0) == s);
        assert(fall(y, vy, dt, 1) == fall(s.0, s.1, dt, 0));
        1
    } else {
        let m = lemma_comes_to_rest(s.0, s.1, dt);
        assert(fall(y, vy, dt, m + 1) == fall(s.0, s.1, dt, m));
        m + 1
    }
}

/// Steering's direction counts each right key held once up and each left key once down.
proof fn lemma_steer_counts(held: Seq<Key>)
    ensures
        steer_dir(held) == tally(held, Key::Right) + tally(held, Key::D) - tally(held, Key::Left) - tally(held, Key::A),
    decreases held.len(),
{
    if held.len() > 0 {
        lemma_steer_counts(held.drop_last());
    }
}

/// Holding as many left keys as right keys cancels out: steering over any tick
/// leaves `x` where it was.
pub proof fn lemma_opposite_keys_cancel(x: i64, speed: i64, held: Seq<Key>, dt: u64)
    requires
        tally(held, Key::Left) + tally(held, Key::A) == tally(held, Key::Right) + tally(held, Key::D),
    ensures
        clamp(x + steer_dir(held) * speed * dt) == x,
{
    lemma_steer_counts(held);
    assert(steer_dir(held) * speed * dt == 0) by (nonlinear_arith)
        requires
            steer_dir(held) == 0,
    ;
}

impl Player {
    /// A player whose speed fits the scene's limit.
    pub open spec fn wf(&self) -> bool {
        0 <= self.speed <= MAX_SPEED
    }

    /// The player at startup: centred horizontally at the top of the viewport,
    /// at rest and facing right.
    pub fn new() -> (r: Player)
        ensures
            r == (Player { x: 0, y: HALF_HEIGHT, vy: 0, speed: PLAYER_SPEED, facing: Facing::Right }),
            r.wf(),
    {
        Player { x: 0, y: HALF_HEIGHT, vy: 0, speed: PLAYER_SPEED, facing: Facing::Right }
    }

    /// Gravity and landing for one tick of `dt` microseconds.
    pub fn physics(&mut self, dt: u64)
        requires
            dt <= MAX_TICK,
        ensures
            (final(self).y as int, final(self).vy as int) == gravity_step(old(self).y as int, old(self).vy as int, dt as int),
            final(self).x == old(self).x,
            final(self).speed == old(self).speed,
            final(self).facing == old(self).facing,
    {
        self.y = sat_add(self.y, self.vy);
        if self.y > FLOOR_Y {
            let dv: i128 = (GRAVITY as i128) * (dt as i128);
            self.vy = narrow(self.vy as i128 - dv);
        }
        if self.vy < 0 && self.y <= FLOOR_Y {
            self.vy = 0;
        }
    }

    /// A freshly pressed jump key launches a grounded player; in the air it does nothing.
    pub fn jump(&mut self, pressed: &Vec<Key>)
        ensures
            final(self).vy == (if jump_pressed(pressed@) && grounded(old(self).y as int) {
                JUMP_VELOCITY
            } else {
                old(self).vy
            }),
            final(self).x == old(self).x,
            final(self).y == old(self).y,
            final(self).speed == old(self).speed,
            final(self).facing == old(self).facing,
    {
        let mut found = false;
        let mut i: usize = 0;
        while i < pressed.len()
            invariant
                i <= pressed@.len(),
                found == exists|j: int| 0 <= j < i && is_jump(#[trigger] pressed@[j]),
            decreases pressed@.len() - i,
        {
            if pressed[i] == Key::Up || pressed[i] == Key::W {
                found = true;
            }
            i += 1;
        }
        if found && self.y <= FLOOR_Y {
            self.vy = JUMP_VELOCITY;
        }
    }

    /// Horizontal movement from the held keys over `dt` microseconds: the
    /// contributions are summed, the facing follows the last contributing key,
    /// and `x` moves by `direction * speed * dt`.
    pub fn steer(&mut self, held: &Vec<Key>, dt: u64)
        requires
            old(self).wf(),
            dt <= MAX_TICK,
        ensures
            final(self).x == clamp(old(self).x + steer_dir(held@) * old(self).speed * dt),
            final(self).facing == facing_after(old(self).facing, held@),
            final(self).y == old(self).y,
            final(self).vy == old(self).vy,
            final(self).speed == old(self).speed,
    {
        let mut dir: i128 = 0;
        let mut facing = self.facing;
        let mut i: usize = 0;
        while i < held.len()
            invariant
                i <= held@.len(),
                dir == steer_dir(held@.take(i as int)),
                facing == facing_after(self.facing, held@.take(i as int)),
                -(i as int) <= dir <= i,
            decreases held@.len() - i,
        {
            proof {
                assert(held@.take(i + 1).drop_last() == held@.take(i as int));
            }
            match held[i] {
                Key::Left | Key::A => {
                    dir = dir - 1;
                    facing = Facing::Left;
                },
                Key::Right | Key::D => {
                    dir = dir + 1;
                    facing = Facing::Right;
                },
                _ => {},
            }
            i += 1;
        }
        proof {
            assert(held@.take(held@.len() as int) == held@);
        }
        let speed = self.speed;
        assert(-0x1_0000_0000_0000_0000 * MAX_SPEED <= dir * speed <= 0x1_0000_0000_0000_0000 * MAX_SPEED
            && -0x1_0000_0000_0000_0000 * MAX_SPEED * MAX_TICK <= dir * speed * dt <= 0x1_0000_0000_0000_0000 * MAX_SPEED * MAX_TICK) by (nonlinear_arith)
            requires
                -0x1_0000_0000_0000_0000 <= dir <= 0x1_0000_0000_0000_0000,
                0 <= speed <= MAX_SPEED,
                dt <= MAX_TICK,
        ;
        let d: i128 = dir * (speed as i128) * (dt as i128);
        self.x = narrow(self.x as i128 + d);
        self.facing = facing;
    }
}

} // verus!
