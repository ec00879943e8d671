//! The repeating timer that paces target spawns.
use vstd::prelude::*;
use vstd::arithmetic::div_mod::lemma_fundamental_div_mod_converse;
use crate::config::{MAX_TICK, SPAWN_INTERVAL};

verus! {

/// A repeating timer: it completes each time `elapsed` reaches `period`, and
/// then starts over with what was left.
#[derive(Clone, Copy, Debug, PartialEq, Eq, Structural)]
pub struct SpawnTimer {
    /// Microseconds since the timer last completed.
    pub elapsed: u64,
    /// Length of one period in microseconds.
    pub period: u64,
}

/// One tick of `dt` on a timer with `elapsed` time gone: the new elapsed time,
/// and whether the timer completed in this tick.
pub open spec fn timer_step(elapsed: int, period: int, dt: int) -> (int, bool) {
    let t = elapsed + dt;
    if t >= period {
        (t % period, true)
    } else {
        (t, false)
    }
}

/// Ticks of the given lengths in order: the final elapsed time and how many
/// times the timer completed.
pub open spec fn run_timer(elapsed: int, period: int, dts: Seq<int>) -> (int, int)
    decreases dts.len(),
{
    if dts.len() == 0 {
        (elapsed, 0)
    } else {
        let r = run_timer(elapsed, period, dts.drop_last());
        let s = timer_step(r.0, period, dts.last());
        (s.0, r.1 + if s.1 { 1int } else { 0int })
    }
}

/// Total length of the ticks.
pub open spec fn total(dts: Seq<int>) -> int
    decreases dts.len(),
{
    if dts.len() == 0 {
        0
    } else {
        total(dts.drop_last()) + dts.last()
    }
}

impl SpawnTimer {
    pub open spec fn wf(&self) -> bool {
        0 < self.period <= MAX_TICK && self.elapsed < self.period
    }

    /// The target spawn timer: a one-second period, none of it gone.
    pub fn new() -> (r: SpawnTimer)
        ensures
            r == (SpawnTimer { elapsed: 0, period: SPAWN_INTERVAL }),
            r.wf(),
    {
        SpawnTimer { elapsed: 0, period: SPAWN_INTERVAL }
    }

    /// Advances the timer by `dt` microseconds; returns whether it completed.
    pub fn tick(&mut self, dt: u64) -> (fired: bool)
        requires
            old(self).wf(),
            dt <= MAX_TICK,
        ensures
            (final(self).elapsed as int, fired) == timer_step(old(self).elapsed as int, old(self).period as int, dt as int),
            final(self).period == old(self).period,
            final(self).wf(),
    {
        let t = self.elapsed + dt;
        if t >= self.period {
            self.elapsed = t % self.period;
            true
        } else {
            self.elapsed = t;
            false
        }
    }
}

/// With no tick longer than one period, a timer that starts with `elapsed`
/// time gone completes once per full period of the total time:
/// `(elapsed + total) / period` times, with the remainder left over.
pub proof fn lemma_spawn_cadence(elapsed: int, period: int, dts: Seq<int>)
    requires
        0 <= elapsed < period,
        forall|i: int| 0 <= i < dts.len() ==> 0 <= #[trigger] dts[i] <= period,
    ensures
        run_timer(elapsed, period, dts).1 == (elapsed + total(dts)) / period,
        run_timer(elapsed, period, dts).0 == (elapsed + total(dts)) % period,
    decreases dts.len(),
{
    if dts.len() == 0 {
        lemma_fundamental_div_mod_converse(elapsed, period, 0, elapsed);
    } else {
        let init = dts.drop_last();
        assert forall|i: int| 0 <= i < init.len() implies 0 <= #[trigger] init[i] <= period by {
            assert(init[i] == dts[i]);
        }
        lemma_spawn_cadence(elapsed, period, init);
        let r = run_timer(elapsed, period, init);
        let x = elapsed + total(init);
        let dt = dts.last();
        assert(dts[dts.len() - 1] == dt);
        vstd::arithmetic::div_mod::lemma_fundamental_div_mod(x, period);
        vstd::arithmetic::div_mod::lemma_mod_bound(x, period);
        let t = r.0 + dt;
        if t >= period {
            vstd::arithmetic::div_mod::lemma_mod_bound(t, period);
            lemma_fundamental_div_mod_converse(t, period, 1, t - period);
            assert(x + dt == (r.1 + 1) * period + (t - period)) by (nonlinear_arith)
                requires
                    x == period * r.1 + r.0,
                    t == r.0 + dt,
            ;
            lemma_fundamental_div_mod_converse(x + dt, period, r.1 + 1, t - period);
        } else {
            assert(x + dt == r.1 * period + t) by (nonlinear_arith)
                requires
                    x == period * r.1 + r.0,
                    t == r.0 + dt,
            ;
            lemma_fundamental_div_mod_converse(x + dt, period, r.1, t);
        }
    }
}

} // verus!
