//! The simulation clock: real time, scaled, accumulates as an overstep, and
//! the simulation advances in fixed steps paid for out of it.
use vstd::prelude::*;

use crate::timer::NANOS_PER_SEC;

verus! {

/// Whether the simulation advances.
#[derive(Clone, Copy, Debug, PartialEq, Eq, Structural)]
pub enum SimulationState {
    Paused,
    Running,
}

impl Default for SimulationState {
    fn default() -> (s: Self)
        ensures
            s == SimulationState::Paused,
    {
        SimulationState::Paused
    }
}

/// Whether the simulated entities are shown.
#[derive(Clone, Copy, Debug, PartialEq, Eq, Structural)]
pub enum SimulationViewState {
    Invisible,
    Visible,
}

impl Default for SimulationViewState {
    fn default() -> (s: Self)
        ensures
            s == SimulationViewState::Invisible,
    {
        SimulationViewState::Invisible
    }
}

impl SimulationViewState {
    /// Whether simulated entities are drawn in this state.
    pub fn shows_entities(self) -> (b: bool)
        ensures
            b == (self == SimulationViewState::Visible),
    {
        match self {
            SimulationViewState::Invisible => false,
            SimulationViewState::Visible => true,
        }
    }
}

/// The simulation's clock. Durations are in nanoseconds; `last_run` is the
/// wall-clock instant (nanoseconds since the epoch) up to which real time has
/// been accumulated.
#[derive(Clone, Copy, Debug, PartialEq, Eq)]
pub struct SimTime {
    /// Scaled time accumulated and not yet spent on steps.
    pub overstep: u64,
    /// Length of one simulation step.
    pub timestep: u64,
    /// Simulated time elapsed through the steps taken.
    pub elapsed: u64,
    /// When real time was last accumulated.
    pub last_run: i64,
}

impl SimTime {
    /// A clock with one-second steps, nothing accumulated, last run at `now`.
    pub fn new(now: i64) -> (t: Self)
        ensures
            t.overstep == 0,
            t.timestep == NANOS_PER_SEC,
            t.elapsed == 0,
            t.last_run == now,
    {
        SimTime { overstep: 0, timestep: NANOS_PER_SEC, elapsed: 0, last_run: now }
    }

    /// Real time since the last run, in nanoseconds; an instant before the
    /// last run wraps around as an unsigned count.
    pub fn delta_since_last_run(&self, now: i64) -> (d: u64)
        requires
            i64::MIN <= now - self.last_run <= i64::MAX,
        ensures
            d == (if now - self.last_run >= 0 {
                now - self.last_run
            } else {
                now - self.last_run + 0x1_0000_0000_0000_0000
            }),
    {
        let diff: i64 = now - self.last_run;
        let d: u64 = #[verifier::truncate] (diff as u64);
        assert(d == (if diff >= 0 { diff as int } else { diff + 0x1_0000_0000_0000_0000 })) by (bit_vector)
            requires
                d == diff as u64,
        ;
        d
    }

    /// Adds `scaled_delta` (real time since the last run, already scaled by
    /// the time scale) to the overstep and records `now` as the last run.
    pub fn accumulate(&mut self, now: i64, scaled_delta: u64)
        requires
            old(self).overstep + scaled_delta <= u64::MAX,
        ensures
            final(self).overstep == old(self).overstep + scaled_delta,
            final(self).last_run == now,
            final(self).timestep == old(self).timestep,
            final(self).elapsed == old(self).elapsed,
    {
        self.overstep = self.overstep + scaled_delta;
        self.last_run = now;
    }

    /// Takes one step if the overstep pays for it: the overstep shrinks by a
    /// timestep and the elapsed time grows by one.
    pub fn expend(&mut self) -> (stepped: bool)
        requires
            old(self).overstep >= old(self).timestep ==> old(self).elapsed + old(self).timestep
                <= u64::MAX,
        ensures
            stepped == (old(self).overstep >= old(self).timestep),
            stepped ==> final(self).overstep == old(self).overstep - old(self).timestep
                && final(self).elapsed == old(self).elapsed + old(self).timestep,
            !stepped ==> *final(self) == *old(self),
            final(self).timestep == old(self).timestep,
            final(self).last_run == old(self).last_run,
    {
        if self.overstep >= self.timestep {
            self.overstep = self.overstep - self.timestep;
            self.elapsed = self.elapsed + self.timestep;
            true
        } else {
            false
        }
    }
}

/// How many times in a row `expend` succeeds on an overstep.
pub open spec fn steps_paid(overstep: nat, timestep: nat) -> nat
    decreases overstep,
{
    if timestep > 0 && overstep >= timestep {
        1 + steps_paid((overstep - timestep) as nat, timestep)
    } else {
        0
    }
}

/// What is left of an overstep after the steps it pays for is less than a timestep.
proof fn lemma_steps_paid_remainder(overstep: nat, timestep: nat)
    requires
        timestep > 0,
    ensures
        0 <= overstep - steps_paid(overstep, timestep) * timestep < timestep,
    decreases overstep,
{
    if overstep >= timestep {
        let rest = (overstep - timestep) as nat;
        lemma_steps_paid_remainder(rest, timestep);
        let k = steps_paid(rest, timestep);
        assert(steps_paid(overstep, timestep) == 1 + k);
        assert((1 + k) * timestep == k * timestep + timestep) by (nonlinear_arith);
    } else {
        assert(steps_paid(overstep, timestep) == 0);
        assert(0 * timestep == 0) by (nonlinear_arith);
    }
}

/// Stepping until `expend` fails takes exactly as many steps as whole
/// timesteps fit in the overstep, and leaves the remainder.
pub proof fn lemma_steps_paid(overstep: nat, timestep: nat)
    requires
        timestep > 0,
    ensures
        steps_paid(overstep, timestep) == overstep / timestep,
        overstep - steps_paid(overstep, timestep) * timestep == overstep % timestep,
{
    lemma_steps_paid_remainder(overstep, timestep);
    let k = steps_paid(overstep, timestep);
    vstd::arithmetic::div_mod::lemma_fundamental_div_mod_converse(
        overstep as int,
        timestep as int,
        k as int,
        overstep - k * timestep,
    );
}


impl SimTime {
    /// Takes steps until the overstep no longer pays for one, and reports
    /// how many were taken: as many as whole timesteps fit in the overstep,
    /// whose remainder is kept.
    pub fn run_pending_steps(&mut self) -> (steps: u64)
        requires
            old(self).timestep > 0,
            old(self).elapsed + old(self).overstep <= u64::MAX,
        ensures
            steps == old(self).overstep / old(self).timestep,
            final(self).overstep == old(self).overstep % old(self).timestep,
            final(self).elapsed == old(self).elapsed + steps * old(self).timestep,
            final(self).timestep == old(self).timestep,
            final(self).last_run == old(self).last_run,
    {
        let mut steps: u64 = 0;
        let ghost o = self.overstep as nat;
        let ghost t = self.timestep as nat;
        proof {
            lemma_steps_paid(o, t);
        }
        let ghost e0 = self.elapsed;
        while self.expend()
            invariant_except_break
                self.timestep == t,
                t > 0,
                self.last_run == old(self).last_run,
                steps_paid(o, t) == steps + steps_paid(self.overstep as nat, t),
                self.overstep + steps * t == o,
                self.elapsed == e0 + steps * t,
                e0 == old(self).elapsed,
                e0 + o <= u64::MAX,
                self.elapsed + self.overstep <= u64::MAX,
            ensures
                self.timestep == t,
                self.last_run == old(self).last_run,
                steps_paid(o, t) == steps + steps_paid(self.overstep as nat, t),
                self.overstep < t,
                self.overstep + steps * t == o,
                self.elapsed == e0 + steps * t,
            decreases self.overstep,
        {
            let ghost k = steps as int;
            let ghost left = self.overstep as int;
            proof {
                // `expend` took a timestep out of the overstep.
                assert(left + t + k * t == o);
                assert((k + 1) * t == k * t + t) by (nonlinear_arith);
                assert(k + 1 <= (k + 1) * t) by (nonlinear_arith)
                    requires
                        k >= 0,
                        t >= 1,
                ;
            }
            steps = steps + 1;
        }
        proof {
            lemma_steps_paid(o, t);
            assert(steps_paid(self.overstep as nat, t) == 0);
            assert(steps == steps_paid(o, t));
            assert(self.overstep == o - steps_paid(o, t) * t);
            assert(self.overstep == o % t);
        }
        steps
    }
}

} // verus!
