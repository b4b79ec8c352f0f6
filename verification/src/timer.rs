//! A countdown timer that fires once or over and over.

use vstd::prelude::*;
use vstd::arithmetic::div_mod::lemma_fundamental_div_mod_converse;
use vstd::arithmetic::div_mod::lemma_fundamental_div_mod;
use vstd::arithmetic::div_mod::lemma_small_mod;
use vstd::arithmetic::div_mod::lemma_basic_div;

verus! {

/// Nanoseconds in a second: the unit of every duration in this crate.
pub const NANOS_PER_SECOND: u64 = 1_000_000_000;

/// What a timer does once its period has elapsed.
#[derive(Clone, Copy, Debug, PartialEq, Eq, Structural)]
pub enum TimerMode {
    /// The timer fires once and stays fired.
    Once,
    /// The timer fires, keeps what it overshot by, and counts again.
    Repeating,
}

/// A timer: time elapsed, the period to reach, and whether the last tick fired.
#[derive(Clone, Copy, Debug, PartialEq, Eq, Structural)]
pub struct Timer {
    /// Nanoseconds counted so far; a repeating timer gives up one period each
    /// time it fires.
    pub elapsed: u64,
    /// Nanoseconds from one firing to the next.
    pub period: u64,
    pub mode: TimerMode,
    /// Whether the timer counts as finished after the last tick.
    pub fired: bool,
}

impl Timer {
    /// The time on the clock after a tick of `delta`, before the machine's
    /// limit on `elapsed` is taken into account.
    pub open spec fn next_elapsed(self, delta: u64) -> int {
        let total = self.elapsed + delta;
        if total >= self.period && self.mode == TimerMode::Repeating {
            total - self.period
        } else {
            total
        }
    }

    /// Whether a tick of `delta` reaches the period.
    pub open spec fn crosses(self, delta: u64) -> bool {
        self.elapsed + delta >= self.period
    }

    /// The timer after a tick of `delta`.
    pub open spec fn ticked(self, delta: u64) -> Timer {
        Timer {
            elapsed: self.next_elapsed(delta) as u64,
            period: self.period,
            mode: self.mode,
            fired: self.crosses(delta) || (self.mode == TimerMode::Once && self.fired),
        }
    }

    /// The timer after `count` ticks of `delta` each.
    pub open spec fn ticked_times(self, delta: u64, count: nat) -> Timer
        decreases count,
    {
        if count == 0 {
            self
        } else {
            self.ticked_times(delta, (count - 1) as nat).ticked(delta)
        }
    }

    /// The repeating timer with period `period`, at zero.
    pub open spec fn new_spec(period: u64) -> Timer {
        Timer { elapsed: 0, period, mode: TimerMode::Repeating, fired: false }
    }

    /// A timer at zero that has not fired.
    pub fn new(period: u64, mode: TimerMode) -> (timer: Timer)
        ensures
            timer == (Timer { elapsed: 0, period, mode, fired: false }),
    {
        Timer { elapsed: 0, period, mode, fired: false }
    }

    /// Advances the timer by `delta` nanoseconds. The timer fires when the
    /// time on its clock reaches the period. A repeating timer then gives up
    /// one period and keeps the rest, and reports the firing for this tick
    /// only; a timer that runs once stays fired for good.
    pub fn tick(&mut self, delta: u64)
        requires
            old(self).next_elapsed(delta) <= u64::MAX,
        ensures
            *final(self) == old(self).ticked(delta),
    {
        let total: u128 = self.elapsed as u128 + delta as u128;
        if total >= self.period as u128 {
            match self.mode {
                TimerMode::Repeating => {
                    self.elapsed = (total - self.period as u128) as u64;
                },
                TimerMode::Once => {
                    self.elapsed = total as u64;
                },
            }
            self.fired = true;
        } else {
            self.elapsed = total as u64;
            match self.mode {
                TimerMode::Repeating => {
                    self.fired = false;
                },
                TimerMode::Once => {},
            }
        }
    }

    /// Whether `tick` may be called with `delta`: whether the time on the
    /// clock afterwards fits the machine's integer.
    pub fn can_tick(&self, delta: u64) -> (ok: bool)
        ensures
            ok == (self.next_elapsed(delta) <= u64::MAX),
    {
        let total: u128 = self.elapsed as u128 + delta as u128;
        let limit: u128 = u64::MAX as u128;
        if total >= self.period as u128 {
            match self.mode {
                TimerMode::Repeating => total - self.period as u128 <= limit,
                TimerMode::Once => total <= limit,
            }
        } else {
            true
        }
    }

    /// Whether the timer fired on the last tick, or, for a timer that runs
    /// once, on any tick so far.
    pub fn finished(&self) -> (fired: bool)
        ensures
            fired == self.fired,
    {
        self.fired
    }

    /// Nanoseconds on the clock.
    pub fn elapsed(&self) -> (elapsed: u64)
        ensures
            elapsed == self.elapsed,
    {
        self.elapsed
    }
}

/// A repeating timer started at zero and ticked `count` times by the same
/// `delta`, smaller than its period, shows the total time modulo the period,
/// and has fired on the last tick exactly if that tick completed another
/// whole period.
pub proof fn lemma_repeating_cadence(period: u64, delta: u64, count: nat)
    requires
        delta < period,
    ensures
        ({
            let start = Timer { elapsed: 0, period, mode: TimerMode::Repeating, fired: false };
            let end = start.ticked_times(delta, count);
            &&& end.period == period
            &&& end.mode == TimerMode::Repeating
            &&& end.elapsed == (count * delta) % (period as int)
            &&& count > 0 ==> (end.fired <==> (count * delta) / (period as int) > ((count - 1)
                * delta) / (period as int))
        }),
    decreases count,
{
    let start = Timer { elapsed: 0, period, mode: TimerMode::Repeating, fired: false };
    let p: int = period as int;
    if count == 0 {
        assert(count * delta == 0) by (nonlinear_arith)
            requires
                count == 0,
        ;
        lemma_small_mod(0, period as nat);
    } else {
        let before: nat = (count - 1) as nat;
        lemma_repeating_cadence(period, delta, before);
        let mid = start.ticked_times(delta, before);
        let prev: int = before * delta;
        let total: int = count * delta;
        assert(total == prev + delta) by (nonlinear_arith)
            requires
                total == count * delta,
                prev == (count - 1) * delta,
        ;
        assert(prev >= 0) by (nonlinear_arith)
            requires
                prev == before * delta,
        ;
        let q: int = prev / p;
        let r: int = prev % p;
        lemma_fundamental_div_mod(prev, p);
        assert(mid.elapsed == r);
        if r + delta >= p {
            assert(total == (q + 1) * p + (r + delta - p)) by (nonlinear_arith)
                requires
                    total == prev + delta,
                    prev == p * q + r,
            ;
            lemma_fundamental_div_mod_converse(total, p, q + 1, r + delta - p);
        } else {
            assert(total == q * p + (r + delta)) by (nonlinear_arith)
                requires
                    total == prev + delta,
                    prev == p * q + r,
            ;
            lemma_fundamental_div_mod_converse(total, p, q, r + delta);
        }
    }
}

/// A repeating timer started at zero and ticked by the same `delta`, smaller
/// than its period, does not fire while the total time is below the period,
/// and fires on the first tick that brings the total to the period or beyond;
/// it then shows what the total exceeds the period by.
pub proof fn lemma_repeating_first_fire(period: u64, delta: u64, count: nat)
    requires
        delta < period,
        count > 0,
        (count - 1) * delta < period,
    ensures
        ({
            let start = Timer { elapsed: 0, period, mode: TimerMode::Repeating, fired: false };
            let end = start.ticked_times(delta, count);
            &&& end.fired <==> count * delta >= period
            &&& !end.fired ==> end.elapsed == count * delta
            &&& end.fired ==> end.elapsed == count * delta - period
        }),
{
    lemma_repeating_cadence(period, delta, count);
    let p: int = period as int;
    let prev: int = (count - 1) * delta;
    let total: int = count * delta;
    assert(total == prev + delta && prev >= 0) by (nonlinear_arith)
        requires
            total == count * delta,
            prev == (count - 1) * delta,
            count >= 1,
    ;
    lemma_basic_div(prev, p);
    if total >= p {
        lemma_fundamental_div_mod_converse(total, p, 1, total - p);
    } else {
        lemma_fundamental_div_mod_converse(total, p, 0, total);
    }
}

} // verus!
