//! The scene: the store of live entities and the ordered systems of one tick.
use vstd::prelude::*;
use crate::config::{
    PLAYER_HEIGHT, PLAYER_WIDTH, BULLET_SIZE, BULLET_SPEED, FLOOR_Y, HALF_WIDTH, JUMP_VELOCITY, MAX_TICK, TARGET_SIZE,
    TARGET_SPEED,
};
use crate::entity::{
    advance, advance_bodies, all_wf, find_handle, handles_ordered, remove_handle, resolve, resolve_collisions, without, Body, Exit,
};
use crate::player::{
    facing_after, gravity_step, grounded, jump_pressed, steer_dir, Facing, Key, Player,
};
use crate::config::clamp;
use crate::timer::{timer_step, SpawnTimer};

verus! {

/// The keyboard as one frame sees it.
#[derive(Clone, Debug)]
pub struct Input {
    /// Keys held down, in the order they are reported.
    pub held: Vec<Key>,
    /// Keys pressed since the previous frame.
    pub pressed: Vec<Key>,
}

/// Everything that is alive in the simulation.
#[derive(Clone, Debug)]
pub struct World {
    pub player: Player,
    pub bullets: Vec<Body>,
    pub targets: Vec<Body>,
    pub timer: SpawnTimer,
    /// Handle the next created entity receives.
    pub next_handle: u64,
}

/// The mathematical state of a [`World`].
pub struct Scene {
    pub player: Player,
    pub bullets: Seq<Body>,
    pub targets: Seq<Body>,
    pub timer: SpawnTimer,
    pub next_handle: u64,
}

impl Scene {
    pub open spec fn wf(&self) -> bool {
        &&& self.player.wf()
        &&& self.timer.wf()
        &&& all_wf(self.bullets)
        &&& all_wf(self.targets)
        &&& handles_ordered(self.bullets, self.next_handle as int)
        &&& handles_ordered(self.targets, self.next_handle as int)
    }
}

impl View for World {
    type V = Scene;

    open spec fn view(&self) -> Scene {
        Scene {
            player: self.player,
            bullets: self.bullets@,
            targets: self.targets@,
            timer: self.timer,
            next_handle: self.next_handle,
        }
    }
}

/// Whether the fire key was freshly pressed.
pub open spec fn fire_pressed(pressed: Seq<Key>) -> bool {
    exists|i: int| 0 <= i < pressed.len() && #[trigger] pressed[i] == Key::Return
}

/// The bullet fired by `p`: at the player's position, heading the way it faces.
pub open spec fn new_bullet(handle: u64, p: Player) -> Body {
    Body {
        handle,
        x: p.x,
        y: p.y,
        z: 0,
        width: BULLET_SIZE,
        height: BULLET_SIZE,
        dir: if p.facing == Facing::Left { -1i64 } else { 1i64 },
        speed: BULLET_SPEED,
    }
}

/// A target entering at the right edge at height `y`, heading left.
pub open spec fn new_target(handle: u64, y: i64) -> Body {
    Body {
        handle,
        x: HALF_WIDTH,
        y,
        z: 0,
        width: TARGET_SIZE,
        height: TARGET_SIZE,
        dir: -1i64,
        speed: TARGET_SPEED,
    }
}

/// The player after gravity, a jump and steering, in that order.
pub open spec fn player_step(p: Player, dt: int, held: Seq<Key>, pressed: Seq<Key>) -> Player {
    let g = gravity_step(p.y as int, p.vy as int, dt);
    let p1 = Player { y: g.0 as i64, vy: g.1 as i64, ..p };
    let p2 = Player {
        vy: if jump_pressed(pressed) && grounded(p1.y as int) { JUMP_VELOCITY } else { p1.vy },
        ..p1
    };
    Player {
        x: clamp(p2.x + steer_dir(held) * p2.speed * dt) as i64,
        facing: facing_after(p2.facing, held),
        ..p2
    }
}

/// One tick of `dt` microseconds: kinematics, player control (jump, steering,
/// fire), bullets, target spawn (at height `spawn_y` if the timer completes),
/// targets, collisions.
pub open spec fn step_model(s: Scene, dt: int, held: Seq<Key>, pressed: Seq<Key>, spawn_y: i64) -> Scene {
    let p = player_step(s.player, dt, held, pressed);
    let fire = fire_pressed(pressed);
    let bs0 = if fire { s.bullets.push(new_bullet(s.next_handle, p)) } else { s.bullets };
    let n1 = if fire { s.next_handle + 1 } else { s.next_handle as int };
    let bs1 = advance(bs0, dt, Exit::AnyEdge);
    let tm = timer_step(s.timer.elapsed as int, s.timer.period as int, dt);
    let ts0 = if tm.1 { s.targets.push(new_target(n1 as u64, spawn_y)) } else { s.targets };
    let n2 = if tm.1 { n1 + 1 } else { n1 };
    let ts1 = advance(ts0, dt, Exit::LeftEdge);
    let r = resolve(bs1, ts1);
    Scene {
        player: p,
        bullets: r.0,
        targets: r.1,
        timer: SpawnTimer { elapsed: tm.0 as u64, ..s.timer },
        next_handle: n2 as u64,
    }
}

/// What kind of entity a drawn box belongs to; the renderer picks its colour.
#[derive(Clone, Copy, Debug, PartialEq, Eq, Structural)]
pub enum Role {
    Player,
    Bullet,
    Target,
}

/// A box to draw: centre, layer, full size and role.
#[derive(Clone, Copy, Debug, PartialEq, Eq, Structural)]
pub struct Shape {
    pub x: i64,
    pub y: i64,
    pub z: i64,
    pub width: i64,
    pub height: i64,
    pub role: Role,
}

/// The box drawn for the player.
pub open spec fn player_shape(p: Player) -> Shape {
    Shape { x: p.x, y: p.y, z: 0, width: PLAYER_WIDTH, height: PLAYER_HEIGHT, role: Role::Player }
}

/// The box drawn for a bullet or target.
pub open spec fn body_shape(b: Body, role: Role) -> Shape {
    Shape { x: b.x, y: b.y, z: b.z, width: b.width, height: b.height, role }
}

/// Relies on `rand::thread_rng` and `rand::Rng::gen_range`: a value drawn from
/// `lo..hi`, which holds it (the call panics only on an empty range).
#[verifier::external_body]
fn random_between(lo: i64, hi: i64) -> (r: i64)
    requires
        lo < hi,
    ensures
        lo <= r < hi,
{
    rand::Rng::gen_range(&mut rand::thread_rng(), lo..hi)
}

impl World {
    pub open spec fn wf(&self) -> bool {
        self@.wf()
    }

    /// The scene at startup: the player alone, the spawn timer at zero.
    pub fn setup() -> (r: World)
        ensures
            r@.player == (Player { x: 0, y: crate::config::HALF_HEIGHT, vy: 0, speed: crate::config::PLAYER_SPEED, facing: Facing::Right }),
            r@.bullets.len() == 0,
            r@.targets.len() == 0,
            r@.timer == (SpawnTimer { elapsed: 0, period: crate::config::SPAWN_INTERVAL }),
            r@.next_handle == 0,
            r.wf(),
    {
        World {
            player: Player::new(),
            bullets: Vec::new(),
            targets: Vec::new(),
            timer: SpawnTimer::new(),
            next_handle: 0,
        }
    }

    /// Creates the bullet that the player fires now; returns its handle.
    pub fn spawn_bullet(&mut self) -> (h: u64)
        requires
            old(self).wf(),
            old(self).next_handle < u64::MAX,
        ensures
            h == old(self).next_handle,
            final(self)@ == (Scene {
                bullets: old(self)@.bullets.push(new_bullet(h, old(self).player)),
                next_handle: (h + 1) as u64,
                ..old(self)@
            }),
            final(self).wf(),
    {
        let h = self.next_handle;
        let dir: i64 = match self.player.facing {
            Facing::Left => -1,
            Facing::Right => 1,
        };
        let b = Body {
            handle: h,
            x: self.player.x,
            y: self.player.y,
            z: 0,
            width: BULLET_SIZE,
            height: BULLET_SIZE,
            dir,
            speed: BULLET_SPEED,
        };
        self.bullets.push(b);
        self.next_handle = h + 1;
        h
    }

    /// Creates a target at the right edge at height `y`; returns its handle.
    pub fn spawn_target(&mut self, y: i64) -> (h: u64)
        requires
            old(self).wf(),
            old(self).next_handle < u64::MAX,
        ensures
            h == old(self).next_handle,
            final(self)@ == (Scene {
                targets: old(self)@.targets.push(new_target(h, y)),
                next_handle: (h + 1) as u64,
                ..old(self)@
            }),
            final(self).wf(),
    {
        let h = self.next_handle;
        let t = Body {
            handle: h,
            x: HALF_WIDTH,
            y,
            z: 0,
            width: TARGET_SIZE,
            height: TARGET_SIZE,
            dir: -1,
            speed: TARGET_SPEED,
        };
        self.targets.push(t);
        self.next_handle = h + 1;
        h
    }

    /// Destroys the bullet or target with handle `h`; a handle that is not
    /// alive (already destroyed, or the player's) changes nothing.
    pub fn destroy(&mut self, h: u64)
        requires
            old(self).wf(),
        ensures
            final(self)@ == (Scene {
                bullets: without(old(self)@.bullets, h),
                targets: without(old(self)@.targets, h),
                ..old(self)@
            }),
            final(self).wf(),
    {
        remove_handle(&mut self.bullets, h);
        remove_handle(&mut self.targets, h);
    }

    /// The live bullet with handle `h`; `None` if no bullet has that handle.
    pub fn bullet(&self, h: u64) -> (r: Option<Body>)
        ensures
            r matches Some(b) ==> b.handle == h && self@.bullets.contains(b),
            r is None <==> forall|i: int| 0 <= i < self.bullets@.len() ==> (#[trigger] self.bullets@[i]).handle != h,
    {
        find_handle(&self.bullets, h)
    }

    /// The live target with handle `h`; `None` if no target has that handle.
    pub fn target(&self, h: u64) -> (r: Option<Body>)
        ensures
            r matches Some(b) ==> b.handle == h && self@.targets.contains(b),
            r is None <==> forall|i: int| 0 <= i < self.targets@.len() ==> (#[trigger] self.targets@[i]).handle != h,
    {
        find_handle(&self.targets, h)
    }

    /// Every live entity as a box to draw: the player first, then the bullets,
    /// then the targets, each in store order.
    pub fn shapes(&self) -> (r: Vec<Shape>)
        ensures
            r@.len() == 1 + self@.bullets.len() + self@.targets.len(),
            r@[0] == player_shape(self.player),
            forall|i: int| 0 <= i < self@.bullets.len() ==> r@[1 + i] == body_shape(#[trigger] self@.bullets[i], Role::Bullet),
            forall|i: int| 0 <= i < self@.targets.len() ==> r@[1 + self@.bullets.len() + i] == body_shape(#[trigger] self@.targets[i], Role::Target),
    {
        let mut r: Vec<Shape> = Vec::new();
        let p = self.player;
        r.push(Shape { x: p.x, y: p.y, z: 0, width: PLAYER_WIDTH, height: PLAYER_HEIGHT, role: Role::Player });
        let mut i: usize = 0;
        while i < self.bullets.len()
            invariant
                i <= self@.bullets.len(),
                r@.len() == 1 + i,
                r@[0] == player_shape(self.player),
                forall|k: int| 0 <= k < i ==> r@[1 + k] == body_shape(#[trigger] self@.bullets[k], Role::Bullet),
            decreases self@.bullets.len() - i,
        {
            let b = self.bullets[i];
            r.push(Shape { x: b.x, y: b.y, z: b.z, width: b.width, height: b.height, role: Role::Bullet });
            i += 1;
        }
        let mut j: usize = 0;
        while j < self.targets.len()
            invariant
                j <= self@.targets.len(),
                r@.len() == 1 + self@.bullets.len() + j,
                r@[0] == player_shape(self.player),
                forall|k: int| 0 <= k < self@.bullets.len() ==> r@[1 + k] == body_shape(#[trigger] self@.bullets[k], Role::Bullet),
                forall|k: int| 0 <= k < j ==> r@[1 + self@.bullets.len() + k] == body_shape(#[trigger] self@.targets[k], Role::Target),
            decreases self@.targets.len() - j,
        {
            let t = self.targets[j];
            r.push(Shape { x: t.x, y: t.y, z: t.z, width: t.width, height: t.height, role: Role::Target });
            j += 1;
        }
        r
    }

    /// Gravity and landing on the player.
    pub fn physics(&mut self, dt: u64)
        requires
            old(self).wf(),
            dt <= MAX_TICK,
        ensures
            final(self)@ == (Scene {
                player: Player {
                    y: gravity_step(old(self).player.y as int, old(self).player.vy as int, dt as int).0 as i64,
                    vy: gravity_step(old(self).player.y as int, old(self).player.vy as int, dt as int).1 as i64,
                    ..old(self).player
                },
                ..old(self)@
            }),
            final(self).wf(),
    {
        self.player.physics(dt);
    }

    /// Jump and steering from the keyboard.
    pub fn move_player(&mut self, dt: u64, input: &Input)
        requires
            old(self).wf(),
            dt <= MAX_TICK,
        ensures
            final(self)@ == (Scene {
                player: Player {
                    x: clamp(old(self).player.x + steer_dir(input.held@) * old(self).player.speed * dt) as i64,
                    vy: if jump_pressed(input.pressed@) && grounded(old(self).player.y as int) {
                        JUMP_VELOCITY
                    } else {
                        old(self).player.vy
                    },
                    facing: facing_after(old(self).player.facing, input.held@),
                    ..old(self).player
                },
                ..old(self)@
            }),
            final(self).wf(),
    {
        self.player.jump(&input.pressed);
        self.player.steer(&input.held, dt);
    }

    /// Fires one bullet on a fresh press of the fire key; returns its handle.
    pub fn player_action(&mut self, input: &Input) -> (fired: Option<u64>)
        requires
            old(self).wf(),
            old(self).next_handle < u64::MAX,
        ensures
            fired is Some <==> fire_pressed(input.pressed@),
            fire_pressed(input.pressed@) ==> fired == Some(old(self).next_handle) && final(self)@ == (Scene {
                bullets: old(self)@.bullets.push(new_bullet(old(self).next_handle, old(self).player)),
                next_handle: (old(self).next_handle + 1) as u64,
                ..old(self)@
            }),
            !fire_pressed(input.pressed@) ==> final(self)@ == old(self)@,
            final(self).wf(),
    {
        let mut found = false;
        let mut i: usize = 0;
        while i < input.pressed.len()
            invariant
                i <= input.pressed@.len(),
                found == exists|j: int| 0 <= j < i && #[trigger] input.pressed@[j] == Key::Return,
            decreases input.pressed@.len() - i,
        {
            if input.pressed[i] == Key::Return {
                found = true;
            }
            i += 1;
        }
        if found {
            Some(self.spawn_bullet())
        } else {
            None
        }
    }

    /// Moves the bullets and destroys those that reached an edge of the viewport.
    pub fn move_bullet(&mut self, dt: u64)
        requires
            old(self).wf(),
            dt <= MAX_TICK,
        ensures
            final(self)@ == (Scene { bullets: advance(old(self)@.bullets, dt as int, Exit::AnyEdge), ..old(self)@ }),
            final(self).wf(),
    {
        self.bullets = advance_bodies(&self.bullets, dt, Exit::AnyEdge);
    }

    /// Advances the spawn timer; when it completes, creates a target at height
    /// `spawn_y` and returns its handle.
    pub fn target_spawner(&mut self, dt: u64, spawn_y: i64) -> (spawned: Option<u64>)
        requires
            old(self).wf(),
            dt <= MAX_TICK,
            old(self).next_handle < u64::MAX,
        ensures
            ({
                let tm = timer_step(old(self).timer.elapsed as int, old(self).timer.period as int, dt as int);
                &&& spawned is Some <==> tm.1
                &&& final(self)@ == (Scene {
                    targets: if tm.1 {
                        old(self)@.targets.push(new_target(old(self).next_handle, spawn_y))
                    } else {
                        old(self)@.targets
                    },
                    timer: SpawnTimer { elapsed: tm.0 as u64, ..old(self).timer },
                    next_handle: if tm.1 { (old(self).next_handle + 1) as u64 } else { old(self).next_handle },
                    ..old(self)@
                })
                &&& tm.1 ==> spawned == Some(old(self).next_handle)
            }),
            final(self).wf(),
    {
        if self.timer.tick(dt) {
            Some(self.spawn_target(spawn_y))
        } else {
            None
        }
    }

    /// Moves the targets and destroys those that reached the left edge.
    pub fn move_target(&mut self, dt: u64)
        requires
            old(self).wf(),
            dt <= MAX_TICK,
        ensures
            final(self)@ == (Scene { targets: advance(old(self)@.targets, dt as int, Exit::LeftEdge), ..old(self)@ }),
            final(self).wf(),
    {
        self.targets = advance_bodies(&self.targets, dt, Exit::LeftEdge);
    }

    /// Destroys each bullet that overlaps a target, together with the first
    /// such target in store order (see [`resolve`]).
    pub fn target_collision(&mut self)
        requires
            old(self).wf(),
        ensures
            final(self)@ == (Scene {
                bullets: resolve(old(self)@.bullets, old(self)@.targets).0,
                targets: resolve(old(self)@.bullets, old(self)@.targets).1,
                ..old(self)@
            }),
            final(self).wf(),
    {
        let kept = resolve_collisions(&self.bullets, &mut self.targets);
        self.bullets = kept;
    }

    /// One tick of `dt` microseconds with the given keyboard; a target spawned
    /// in this tick enters at height `spawn_y`.
    pub fn step(&mut self, dt: u64, input: &Input, spawn_y: i64)
        requires
            old(self).wf(),
            dt <= MAX_TICK,
            old(self).next_handle < u64::MAX - 1,
        ensures
            final(self)@ == step_model(old(self)@, dt as int, input.held@, input.pressed@, spawn_y),
            final(self).wf(),
    {
        self.physics(dt);
        self.move_player(dt, input);
        self.player_action(input);
        self.move_bullet(dt);
        self.target_spawner(dt, spawn_y);
        self.move_target(dt);
        self.target_collision();
    }

    /// One tick of `dt` microseconds with the given keyboard; a target spawned
    /// in this tick enters at a random height between the floor and the middle
    /// of the viewport.
    pub fn tick(&mut self, dt: u64, input: &Input)
        requires
            old(self).wf(),
            dt <= MAX_TICK,
            old(self).next_handle < u64::MAX - 1,
        ensures
            exists|y: i64|
                FLOOR_Y <= y < 0 && final(self)@ == step_model(old(self)@, dt as int, input.held@, input.pressed@, y),
            final(self).wf(),
    {
        let y = random_between(FLOOR_Y, 0);
        self.step(dt, input, y);
    }
}

} // verus!
