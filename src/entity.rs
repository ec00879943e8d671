//! Bullets and targets: moving bodies with a box, how they advance and leave
//! the viewport, how bullets and targets collide, and destruction by handle.
use vstd::prelude::*;
use crate::config::{clamp, displacement, narrow, HALF_HEIGHT, HALF_WIDTH, MAX_SPEED, MAX_TICK};

verus! {

/// A moving entity with a box: a bullet or a target.
#[derive(Clone, Copy, Debug, PartialEq, Eq, Structural)]
pub struct Body {
    /// Identity of the entity; never reused.
    pub handle: u64,
    pub x: i64,
    pub y: i64,
    /// Drawing layer, fixed at creation.
    pub z: i64,
    /// Full width and height of the box, centred on `(x, y)`.
    pub width: i64,
    pub height: i64,
    /// Horizontal direction of travel, `-1` or `1`.
    pub dir: i64,
    /// Speed in nano-units per microsecond.
    pub speed: i64,
}

/// Where a body leaves the scene.
#[derive(Clone, Copy, Debug, PartialEq, Eq, Structural)]
pub enum Exit {
    /// At any edge of the viewport (bullets).
    AnyEdge,
    /// At the left edge of the viewport (targets).
    LeftEdge,
}

impl Body {
    pub open spec fn wf(&self) -> bool {
        (self.dir == -1 || self.dir == 1) && 0 <= self.speed <= MAX_SPEED
    }
}

/// Every body of `s` is well formed.
pub open spec fn all_wf(s: Seq<Body>) -> bool {
    forall|i: int| 0 <= i < s.len() ==> (#[trigger] s[i]).wf()
}

/// Handles strictly increase along `s` and stay below `bound`, so each handle
/// names at most one entity.
pub open spec fn handles_ordered(s: Seq<Body>, bound: int) -> bool {
    &&& forall|i: int, j: int| 0 <= i < j < s.len() ==> (#[trigger] s[i]).handle < (#[trigger] s[j]).handle
    &&& forall|i: int| 0 <= i < s.len() ==> (#[trigger] s[i]).handle < bound
}

/// `b` after a tick of `dt` microseconds: `x` moves by `dir * speed * dt`.
pub open spec fn moved(b: Body, dt: int) -> Body {
    Body { x: clamp(b.x + b.dir * b.speed * dt) as i64, ..b }
}

/// Whether `b` is still in the scene after moving.
pub open spec fn inside(b: Body, exit: Exit) -> bool {
    match exit {
        Exit::AnyEdge => -HALF_WIDTH < b.x < HALF_WIDTH && -HALF_HEIGHT < b.y < HALF_HEIGHT,
        Exit::LeftEdge => b.x > -HALF_WIDTH,
    }
}

/// Every body moved, in order, and those that left the scene removed.
pub open spec fn advance(s: Seq<Body>, dt: int, exit: Exit) -> Seq<Body>
    decreases s.len(),
{
    if s.len() == 0 {
        s
    } else {
        let rest = advance(s.drop_last(), dt, exit);
        let m = moved(s.last(), dt);
        if inside(m, exit) {
            rest.push(m)
        } else {
            rest
        }
    }
}

/// Axis-aligned boxes overlap: on each axis the open intervals
/// `centre ± size / 2` intersect (written doubled, to stay in integers).
pub open spec fn overlaps(a: Body, b: Body) -> bool {
    &&& 2 * a.x - a.width < 2 * b.x + b.width
    &&& 2 * b.x - b.width < 2 * a.x + a.width
    &&& 2 * a.y - a.height < 2 * b.y + b.height
    &&& 2 * b.y - b.height < 2 * a.y + a.height
}

/// Index of the first target that `b` overlaps, or `ts.len()` if none.
pub open spec fn first_hit(b: Body, ts: Seq<Body>) -> int
    decreases ts.len(),
{
    if ts.len() == 0 {
        0
    } else if overlaps(b, ts[0]) {
        0
    } else {
        1 + first_hit(b, ts.drop_first())
    }
}

/// The collision pass: bullets are taken in order, and each one that overlaps
/// a remaining target is removed together with the first such target. Returns
/// the surviving bullets and targets.
pub open spec fn resolve(bs: Seq<Body>, ts: Seq<Body>) -> (Seq<Body>, Seq<Body>)
    decreases bs.len(),
{
    if bs.len() == 0 {
        (bs, ts)
    } else {
        let r = resolve(bs.drop_last(), ts);
        let b = bs.last();
        let j = first_hit(b, r.1);
        if j < r.1.len() {
            (r.0, r.1.remove(j))
        } else {
            (r.0.push(b), r.1)
        }
    }
}

/// `s` without the entity whose handle is `h`.
pub open spec fn without(s: Seq<Body>, h: u64) -> Seq<Body>
    decreases s.len(),
{
    if s.len() == 0 {
        s
    } else {
        let rest = without(s.drop_last(), h);
        if s.last().handle == h {
            rest
        } else {
            rest.push(s.last())
        }
    }
}

/// The box test on two bodies.
pub fn collide(a: &Body, b: &Body) -> (r: bool)
    ensures
        r == overlaps(*a, *b),
{
    let ax = 2 * (a.x as i128);
    let bx = 2 * (b.x as i128);
    let ay = 2 * (a.y as i128);
    let by = 2 * (b.y as i128);
    ax - (a.width as i128) < bx + (b.width as i128) && bx - (b.width as i128) < ax + (a.width as i128)
        && ay - (a.height as i128) < by + (b.height as i128) && by - (b.height as i128) < ay
        + (a.height as i128)
}

/// Moves every body by one tick and drops those that left the scene.
pub fn advance_bodies(bodies: &Vec<Body>, dt: u64, exit: Exit) -> (r: Vec<Body>)
    requires
        all_wf(bodies@),
        dt <= MAX_TICK,
    ensures
        r@ == advance(bodies@, dt as int, exit),
        all_wf(r@),
        forall|bound: int| handles_ordered(bodies@, bound) ==> handles_ordered(r@, bound),
{
    let mut out: Vec<Body> = Vec::new();
    let mut i: usize = 0;
    while i < bodies.len()
        invariant
            i <= bodies@.len(),
            all_wf(bodies@),
            dt <= MAX_TICK,
            out@ == advance(bodies@.take(i as int), dt as int, exit),
            all_wf(out@),
        decreases bodies@.len() - i,
    {
        proof {
            assert(bodies@.take(i + 1).drop_last() == bodies@.take(i as int));
        }
        let b = bodies[i];
        assert(b.wf());
        let d = displacement(b.dir, b.speed, dt);
        let m = Body { x: narrow(b.x as i128 + d), ..b };
        let keep = match exit {
            Exit::AnyEdge => -HALF_WIDTH < m.x && m.x < HALF_WIDTH && -HALF_HEIGHT < m.y && m.y
                < HALF_HEIGHT,
            Exit::LeftEdge => m.x > -HALF_WIDTH,
        };
        if keep {
            out.push(m);
        }
        i += 1;
    }
    proof {
        assert(bodies@.take(bodies@.len() as int) == bodies@);
        assert forall|bound: int| handles_ordered(bodies@, bound) implies handles_ordered(out@, bound) by {
            lemma_advance_ordered(bodies@, dt as int, exit, bound);
        }
    }
    out
}

proof fn lemma_first_hit(b: Body, ts: Seq<Body>, j: int)
    requires
        0 <= j <= ts.len(),
        forall|k: int| 0 <= k < j ==> !overlaps(b, #[trigger] ts[k]),
        j == ts.len() || overlaps(b, ts[j]),
    ensures
        first_hit(b, ts) == j,
    decreases j,
{
    if j > 0 {
        assert(!overlaps(b, ts[0]));
        let rest = ts.drop_first();
        assert forall|k: int| 0 <= k < j - 1 implies !overlaps(b, #[trigger] rest[k]) by {
            assert(rest[k] == ts[k + 1]);
        }
        lemma_first_hit(b, rest, j - 1);
    }
}

/// Index of the first target in `ts` that `b` overlaps, or `ts.len()`.
fn find_hit(b: &Body, ts: &Vec<Body>) -> (j: usize)
    ensures
        j == first_hit(*b, ts@),
{
    let mut j: usize = 0;
    while j < ts.len()
        invariant
            j <= ts@.len(),
            forall|k: int| 0 <= k < j ==> !overlaps(*b, #[trigger] ts@[k]),
        decreases ts@.len() - j,
    {
        if collide(b, &ts[j]) {
            proof {
                lemma_first_hit(*b, ts@, j as int);
            }
            return j;
        }
        j += 1;
    }
    proof {
        lemma_first_hit(*b, ts@, j as int);
    }
    j
}

/// The collision pass over all bullets and targets. Of several targets that one
/// bullet overlaps, the one earliest in `targets` (in a well-formed scene, the
/// oldest) is hit; bullets are taken in their order in `bullets`. Returns the surviving bullets; the surviving
/// targets are left in `targets`.
pub fn resolve_collisions(bullets: &Vec<Body>, targets: &mut Vec<Body>) -> (kept: Vec<Body>)
    requires
        all_wf(bullets@),
        all_wf(old(targets)@),
    ensures
        (kept@, final(targets)@) == resolve(bullets@, old(targets)@),
        all_wf(kept@),
        all_wf(final(targets)@),
        forall|bound: int| handles_ordered(bullets@, bound) && handles_ordered(old(targets)@, bound)
            ==> handles_ordered(kept@, bound) && handles_ordered(final(targets)@, bound),
{
    let ghost ts0 = targets@;
    let mut kept: Vec<Body> = Vec::new();
    let mut i: usize = 0;
    while i < bullets.len()
        invariant
            i <= bullets@.len(),
            all_wf(bullets@),
            (kept@, targets@) == resolve(bullets@.take(i as int), ts0),
            all_wf(kept@),
            all_wf(targets@),
        decreases bullets@.len() - i,
    {
        proof {
            assert(bullets@.take(i + 1).drop_last() == bullets@.take(i as int));
        }
        let b = bullets[i];
        let j = find_hit(&b, targets);
        if j < targets.len() {
            let ghost before = targets@;
            targets.remove(j);
            proof {
                assert forall|k: int| 0 <= k < targets@.len() implies (#[trigger] targets@[k]).wf() by {
                    if k < j {
                        assert(targets@[k] == before[k]);
                    } else {
                        assert(targets@[k] == before[k + 1]);
                    }
                }
            }
        } else {
            kept.push(b);
        }
        i += 1;
    }
    proof {
        assert(bullets@.take(bullets@.len() as int) == bullets@);
        assert forall|bound: int| handles_ordered(bullets@, bound) && handles_ordered(ts0, bound)
            implies handles_ordered(kept@, bound) && handles_ordered(targets@, bound) by {
            lemma_resolve_ordered(bullets@, ts0, bound, bound);
        }
    }
    kept
}

/// The entity of `v` whose handle is `h`, if there is one.
pub fn find_handle(v: &Vec<Body>, h: u64) -> (r: Option<Body>)
    ensures
        r matches Some(b) ==> b.handle == h && v@.contains(b),
        r is None <==> forall|i: int| 0 <= i < v@.len() ==> (#[trigger] v@[i]).handle != h,
{
    let mut i: usize = 0;
    while i < v.len()
        invariant
            i <= v@.len(),
            forall|k: int| 0 <= k < i ==> (#[trigger] v@[k]).handle != h,
        decreases v@.len() - i,
    {
        if v[i].handle == h {
            return Some(v[i]);
        }
        i += 1;
    }
    None
}

/// Removes the entity with handle `h` from `v`; nothing happens if it is absent.
pub fn remove_handle(v: &mut Vec<Body>, h: u64)
    requires
        all_wf(old(v)@),
    ensures
        final(v)@ == without(old(v)@, h),
        all_wf(final(v)@),
        forall|bound: int| handles_ordered(old(v)@, bound) ==> handles_ordered(final(v)@, bound),
{
    let mut out: Vec<Body> = Vec::new();
    let mut i: usize = 0;
    while i < v.len()
        invariant
            i <= v@.len(),
            all_wf(v@),
            out@ == without(v@.take(i as int), h),
            all_wf(out@),
        decreases v@.len() - i,
    {
        proof {
            assert(v@.take(i + 1).drop_last() == v@.take(i as int));
        }
        let b = v[i];
        if b.handle != h {
            out.push(b);
        }
        i += 1;
    }
    proof {
        assert(v@.take(v@.len() as int) == v@);
        assert forall|bound: int| handles_ordered(v@, bound) implies handles_ordered(out@, bound) by {
            lemma_without_ordered(v@, h, bound);
        }
    }
    *v = out;
}

proof fn lemma_advance_ordered(s: Seq<Body>, dt: int, exit: Exit, bound: int)
    requires
        handles_ordered(s, bound),
    ensures
        handles_ordered(advance(s, dt, exit), bound),
    decreases s.len(),
{
    if s.len() > 0 {
        let init = s.drop_last();
        assert(s.last() == s[s.len() - 1]);
        assert forall|i: int, j: int| 0 <= i < j < init.len() implies (#[trigger] init[i]).handle < (#[trigger] init[j]).handle by {
            assert(init[i] == s[i] && init[j] == s[j]);
        }
        assert forall|i: int| 0 <= i < init.len() implies (#[trigger] init[i]).handle < s.last().handle by {
            assert(init[i] == s[i]);
        }
        lemma_advance_ordered(init, dt, exit, s.last().handle as int);
        lemma_advance_ordered(init, dt, exit, bound);
    }
}

proof fn lemma_without_ordered(s: Seq<Body>, h: u64, bound: int)
    requires
        handles_ordered(s, bound),
    ensures
        handles_ordered(without(s, h), bound),
    decreases s.len(),
{
    if s.len() > 0 {
        let init = s.drop_last();
        assert(s.last() == s[s.len() - 1]);
        assert forall|i: int, j: int| 0 <= i < j < init.len() implies (#[trigger] init[i]).handle < (#[trigger] init[j]).handle by {
            assert(init[i] == s[i] && init[j] == s[j]);
        }
        assert forall|i: int| 0 <= i < init.len() implies (#[trigger] init[i]).handle < s.last().handle by {
            assert(init[i] == s[i]);
        }
        lemma_without_ordered(init, h, s.last().handle as int);
        lemma_without_ordered(init, h, bound);
    }
}

proof fn lemma_remove_ordered(s: Seq<Body>, j: int, bound: int)
    requires
        handles_ordered(s, bound),
        0 <= j < s.len(),
    ensures
        handles_ordered(s.remove(j), bound),
{
    let r = s.remove(j);
    assert forall|a: int| 0 <= a < r.len() implies #[trigger] r[a] == s[if a < j { a } else { a + 1 }] by {}
    assert forall|a: int, b: int| 0 <= a < b < r.len() implies (#[trigger] r[a]).handle < (#[trigger] r[b]).handle by {
        assert(r[a] == s[if a < j { a } else { a + 1 }]);
        assert(r[b] == s[if b < j { b } else { b + 1 }]);
    }
    assert forall|a: int| 0 <= a < r.len() implies (#[trigger] r[a]).handle < bound by {
        assert(r[a] == s[if a < j { a } else { a + 1 }]);
    }
}

proof fn lemma_resolve_ordered(bs: Seq<Body>, ts: Seq<Body>, bb: int, tb: int)
    requires
        handles_ordered(bs, bb),
        handles_ordered(ts, tb),
    ensures
        handles_ordered(resolve(bs, ts).0, bb),
        handles_ordered(resolve(bs, ts).1, tb),
    decreases bs.len(),
{
    if bs.len() > 0 {
        let init = bs.drop_last();
        assert(bs.last() == bs[bs.len() - 1]);
        assert forall|i: int, j: int| 0 <= i < j < init.len() implies (#[trigger] init[i]).handle < (#[trigger] init[j]).handle by {
            assert(init[i] == bs[i] && init[j] == bs[j]);
        }
        assert forall|i: int| 0 <= i < init.len() implies (#[trigger] init[i]).handle < bs.last().handle by {
            assert(init[i] == bs[i]);
        }
        lemma_resolve_ordered(init, ts, bs.last().handle as int, tb);
        lemma_resolve_ordered(init, ts, bb, tb);
        let r = resolve(init, ts);
        let j = first_hit(bs.last(), r.1);
        if j < r.1.len() {
            lemma_first_hit_range(bs.last(), r.1);
            lemma_remove_ordered(r.1, j, tb);
        }
    }
}

proof fn lemma_first_hit_range(b: Body, ts: Seq<Body>)
    ensures
        0 <= first_hit(b, ts) <= ts.len(),
    decreases ts.len(),
{
    if ts.len() > 0 {
        lemma_first_hit_range(b, ts.drop_first());
    }
}

/// `n` ticks of advancing.
pub open spec fn advance_n(s: Seq<Body>, dt: int, exit: Exit, n: nat) -> Seq<Body>
    decreases n,
{
    if n == 0 {
        s
    } else {
        advance_n(advance(s, dt, exit), dt, exit, (n - 1) as nat)
    }
}

proof fn lemma_advance_concat(a: Seq<Body>, b: Seq<Body>, dt: int, exit: Exit)
    ensures
        advance(a + b, dt, exit) == advance(a, dt, exit) + advance(b, dt, exit),
    decreases b.len(),
{
    if b.len() == 0 {
        assert(a + b == a);
        assert(advance(a, dt, exit) + advance(b, dt, exit) == advance(a, dt, exit));
    } else {
        assert((a + b).drop_last() == a + b.drop_last());
        assert((a + b).last() == b.last());
        lemma_advance_concat(a, b.drop_last(), dt, exit);
        let m = moved(b.last(), dt);
        let x = advance(a, dt, exit);
        let y = advance(b.drop_last(), dt, exit);
        assert((x + y).push(m) == x + y.push(m));
    }
}

proof fn lemma_advance_n_concat(a: Seq<Body>, b: Seq<Body>, dt: int, exit: Exit, n: nat)
    ensures
        advance_n(a + b, dt, exit, n) == advance_n(a, dt, exit, n) + advance_n(b, dt, exit, n),
    decreases n,
{
    if n > 0 {
        lemma_advance_concat(a, b, dt, exit);
        lemma_advance_n_concat(advance(a, dt, exit), advance(b, dt, exit), dt, exit, (n - 1) as nat);
    }
}

proof fn lemma_advance_n_empty(dt: int, exit: Exit, n: nat)
    ensures
        advance_n(Seq::<Body>::empty(), dt, exit, n) == Seq::<Body>::empty(),
    decreases n,
{
    if n > 0 {
        lemma_advance_n_empty(dt, exit, (n - 1) as nat);
    }
}

proof fn lemma_advance_n_split(s: Seq<Body>, dt: int, exit: Exit, m: nat, k: nat)
    ensures
        advance_n(s, dt, exit, m + k) == advance_n(advance_n(s, dt, exit, m), dt, exit, k),
    decreases m,
{
    if m > 0 {
        lemma_advance_n_split(advance(s, dt, exit), dt, exit, (m - 1) as nat, k);
        assert((m + k - 1) as nat == (m - 1) as nat + k);
    }
}

/// Once gone after `m` ticks, gone after any later tick.
proof fn lemma_stays_gone(s: Seq<Body>, dt: int, exit: Exit, m: nat, n: nat)
    requires
        m <= n,
        advance_n(s, dt, exit, m).len() == 0,
    ensures
        advance_n(s, dt, exit, n).len() == 0,
{
    lemma_advance_n_split(s, dt, exit, m, (n - m) as nat);
    assert(advance_n(s, dt, exit, m) == Seq::<Body>::empty());
    lemma_advance_n_empty(dt, exit, (n - m) as nat);
    assert(m + (n - m) as nat == n);
}

/// Distance a bullet still has to travel before it reaches the edge it heads for.
spec fn distance_left(b: Body) -> int {
    let d = if b.dir == 1 { HALF_WIDTH - b.x } else { b.x + HALF_WIDTH };
    if d > 0 { d } else { 0 }
}

proof fn lemma_lone_bullet_leaves(b: Body, dt: int) -> (n: nat)
    requires
        b.wf(),
        b.speed > 0,
        dt >= 1,
    ensures
        advance_n(seq![b], dt, Exit::AnyEdge, n).len() == 0,
    decreases distance_left(b),
{
    let s = seq![b];
    let m = moved(b, dt);
    assert(s.drop_last() == Seq::<Body>::empty());
    assert(advance(Seq::<Body>::empty(), dt, Exit::AnyEdge) == Seq::<Body>::empty());
    assert(s.last() == b);
    assert(b.speed * dt >= 1) by (nonlinear_arith)
        requires
            b.speed > 0,
            dt >= 1,
    ;
    assert(b.dir * b.speed * dt == if b.dir == 1 { b.speed * dt } else { -(b.speed * dt) }) by (nonlinear_arith)
        requires
            b.dir == 1 || b.dir == -1,
    ;
    if inside(m, Exit::AnyEdge) {
        assert(advance(s, dt, Exit::AnyEdge) == seq![m]);
        let k = lemma_lone_bullet_leaves(m, dt);
        assert(advance_n(s, dt, Exit::AnyEdge, k + 1) == advance_n(seq![m], dt, Exit::AnyEdge, k));
        k + 1
    } else {
        assert(advance(s, dt, Exit::AnyEdge) == Seq::<Body>::empty());
        assert(advance_n(Seq::<Body>::empty(), dt, Exit::AnyEdge, 0) == Seq::<Body>::empty());
        assert(advance_n(s, dt, Exit::AnyEdge, 1) == advance_n(Seq::<Body>::empty(), dt, Exit::AnyEdge, 0));
        1
    }
}

/// Bullets that all move (positive speed) are all gone after finitely many
/// ticks of a fixed positive length, and none come back.
pub proof fn lemma_bullets_leave(s: Seq<Body>, dt: int) -> (n: nat)
    requires
        forall|i: int| 0 <= i < s.len() ==> (#[trigger] s[i]).wf() && s[i].speed > 0,
        dt >= 1,
    ensures
        forall|k: nat| k >= n ==> (#[trigger] advance_n(s, dt, Exit::AnyEdge, k)).len() == 0,
    decreases s.len(),
{
    if s.len() == 0 {
        assert forall|k: nat| k >= 0 implies (#[trigger] advance_n(s, dt, Exit::AnyEdge, k)).len() == 0 by {
            assert(s == Seq::<Body>::empty());
            lemma_advance_n_empty(dt, Exit::AnyEdge, k);
        }
        0
    } else {
        let init = s.drop_last();
        let b = s.last();
        assert(b == s[s.len() - 1]);
        assert forall|i: int| 0 <= i < init.len() implies (#[trigger] init[i]).wf() && init[i].speed > 0 by {
            assert(init[i] == s[i]);
        }
        let n1 = lemma_bullets_leave(init, dt);
        let n2 = lemma_lone_bullet_leaves(b, dt);
        let n = if n1 > n2 { n1 } else { n2 };
        assert(s == init + seq![b]);
        assert forall|k: nat| k >= n implies (#[trigger] advance_n(s, dt, Exit::AnyEdge, k)).len() == 0 by {
            lemma_advance_n_concat(init, seq![b], dt, Exit::AnyEdge, k);
            lemma_stays_gone(seq![b], dt, Exit::AnyEdge, n2, k);
            assert(advance_n(init, dt, Exit::AnyEdge, k).len() == 0);
        }
        n
    }
}

/// Destroying an entity twice has the same effect as destroying it once.
pub proof fn lemma_destroy_idempotent(s: Seq<Body>, h: u64)
    ensures
        without(without(s, h), h) == without(s, h),
    decreases s.len(),
{
    if s.len() > 0 {
        let w = without(s.drop_last(), h);
        lemma_destroy_idempotent(s.drop_last(), h);
        if s.last().handle != h {
            assert(w.push(s.last()).drop_last() == w);
        }
    }
}

/// A bullet and a target alone in the scene: the collision pass removes both
/// exactly when their boxes overlap, and otherwise keeps both.
pub proof fn lemma_collision_pair(bullet: Body, target: Body)
    ensures
        overlaps(bullet, target) ==> resolve(seq![bullet], seq![target]) == (Seq::<Body>::empty(), Seq::<Body>::empty()),
        !overlaps(bullet, target) ==> resolve(seq![bullet], seq![target]) == (seq![bullet], seq![target]),
{
    let bs = seq![bullet];
    let ts = seq![target];
    assert(bs.drop_last() == Seq::<Body>::empty());
    assert(resolve(Seq::<Body>::empty(), ts) == (Seq::<Body>::empty(), ts));
    assert(ts.drop_first() == Seq::<Body>::empty());
    assert(first_hit(bullet, Seq::<Body>::empty()) == 0);
    if overlaps(bullet, target) {
        assert(ts.remove(0) == Seq::<Body>::empty());
    } else {
        assert(Seq::<Body>::empty().push(bullet) == bs);
    }
}

} // verus!
