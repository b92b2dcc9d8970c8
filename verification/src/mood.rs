//! A pet's moods: how satisfied it is with its cleanliness, fun and money,
//! and how its hunger develops from filled to starving.
use vstd::prelude::*;

use crate::timer::{spec_tick, RepeatingTimer};
use crate::Money;

verus! {

/// Two minutes, in nanoseconds: how often hunger, fun and cleanliness moods are checked.
pub const HUNGER_MOOD_UPDATE: u64 = 120_000_000_000;

pub const FUN_MOOD_UPDATE: u64 = 120_000_000_000;

pub const CLEANLINESS_MOOD_UPDATE: u64 = 120_000_000_000;

/// Two hours, in nanoseconds: how often the money mood is checked.
pub const MONEY_MOOD_UPDATE: u64 = 7_200_000_000_000;

/// Twenty minutes, in nanoseconds.
pub const TWENTY_MINUTES: u64 = 1_200_000_000_000;

/// One hour, in nanoseconds.
pub const ONE_HOUR: u64 = 3_600_000_000_000;

/// How satisfied a pet is with one aspect of its life, from worst to best.
#[derive(Clone, Copy, Debug, PartialEq, Eq)]
pub enum SatisfactionRating {
    VeryUnsatisfied,
    Unsatisfied,
    Neutral,
    Satisfied,
    VerySatisfied,
}

/// Position of a rating on the scale, from 0 (worst) to 4 (best).
pub open spec fn rating_level(r: SatisfactionRating) -> int {
    match r {
        SatisfactionRating::VeryUnsatisfied => 0,
        SatisfactionRating::Unsatisfied => 1,
        SatisfactionRating::Neutral => 2,
        SatisfactionRating::Satisfied => 3,
        SatisfactionRating::VerySatisfied => 4,
    }
}

impl SatisfactionRating {
    /// One step better, staying at the best.
    pub fn step_up(&self) -> (r: SatisfactionRating)
        ensures
            rating_level(r) == if rating_level(*self) < 4 {
                rating_level(*self) + 1
            } else {
                4
            },
    {
        match self {
            SatisfactionRating::VeryUnsatisfied => SatisfactionRating::Unsatisfied,
            SatisfactionRating::Unsatisfied => SatisfactionRating::Neutral,
            SatisfactionRating::Neutral => SatisfactionRating::Satisfied,
            SatisfactionRating::Satisfied => SatisfactionRating::VerySatisfied,
            SatisfactionRating::VerySatisfied => SatisfactionRating::VerySatisfied,
        }
    }

    /// One step worse, staying at the worst.
    pub fn step_down(&self) -> (r: SatisfactionRating)
        ensures
            rating_level(r) == if rating_level(*self) > 0 {
                rating_level(*self) - 1
            } else {
                0
            },
    {
        match self {
            SatisfactionRating::VeryUnsatisfied => SatisfactionRating::VeryUnsatisfied,
            SatisfactionRating::Unsatisfied => SatisfactionRating::VeryUnsatisfied,
            SatisfactionRating::Neutral => SatisfactionRating::Unsatisfied,
            SatisfactionRating::Satisfied => SatisfactionRating::Neutral,
            SatisfactionRating::VerySatisfied => SatisfactionRating::Satisfied,
        }
    }
}

/// A rating is determined by its level.
pub proof fn lemma_rating_level_injective(a: SatisfactionRating, b: SatisfactionRating)
    ensures
        rating_level(a) == rating_level(b) ==> a == b,
        0 <= rating_level(a) <= 4,
{
}

/// A satisfaction rating and the timer that paces its changes.
#[derive(Clone, Copy, Debug, PartialEq, Eq)]
pub struct MoodState {
    pub satisfaction: SatisfactionRating,
    pub timer: RepeatingTimer,
}

impl MoodState {
    /// A neutral mood checked every `duration` nanoseconds.
    pub fn new(duration: u64) -> (m: Self)
        ensures
            m.satisfaction == SatisfactionRating::Neutral,
            m.timer == RepeatingTimer::new_spec(duration),
    {
        MoodState { satisfaction: SatisfactionRating::Neutral, timer: RepeatingTimer::new(duration) }
    }
}

/// The moods a pet may have; each is present only if the pet cares about it.
#[derive(Clone, Copy, Debug, PartialEq, Eq)]
pub struct Mood {
    pub cleanliness: Option<MoodState>,
    pub fun: Option<MoodState>,
    pub money: Option<MoodState>,
}

impl Mood {
    /// A pet with no moods yet.
    pub fn new() -> (m: Self)
        ensures
            m.cleanliness is None,
            m.fun is None,
            m.money is None,
    {
        Mood { cleanliness: None, fun: None, money: None }
    }
}

/// Gives a pet a mood it did not have yet, neutral and checked every `duration`.
pub fn add_mood(mood: &mut Option<MoodState>, duration: u64)
    ensures
        *final(mood) == if old(mood).is_none() {
            Some(
                MoodState {
                    satisfaction: SatisfactionRating::Neutral,
                    timer: RepeatingTimer::new_spec(duration),
                },
            )
        } else {
            *old(mood)
        },
{
    if mood.is_none() {
        *mood = Some(MoodState::new(duration));
    }
}

/// What a check does to a mood: the timer advances, and each time it
/// completes a period the rating moves a step up when `condition` holds and a
/// step down otherwise.
pub open spec fn spec_update_mood(m: MoodState, delta: int, condition: bool) -> MoodState {
    let t = spec_tick(m.timer, delta);
    MoodState {
        satisfaction: if t.times_finished_this_tick > 0 {
            if condition {
                step_up_spec(m.satisfaction)
            } else {
                step_down_spec(m.satisfaction)
            }
        } else {
            m.satisfaction
        },
        timer: t,
    }
}

pub open spec fn step_up_spec(r: SatisfactionRating) -> SatisfactionRating {
    match r {
        SatisfactionRating::VeryUnsatisfied => SatisfactionRating::Unsatisfied,
        SatisfactionRating::Unsatisfied => SatisfactionRating::Neutral,
        SatisfactionRating::Neutral => SatisfactionRating::Satisfied,
        SatisfactionRating::Satisfied => SatisfactionRating::VerySatisfied,
        SatisfactionRating::VerySatisfied => SatisfactionRating::VerySatisfied,
    }
}

pub open spec fn step_down_spec(r: SatisfactionRating) -> SatisfactionRating {
    match r {
        SatisfactionRating::VeryUnsatisfied => SatisfactionRating::VeryUnsatisfied,
        SatisfactionRating::Unsatisfied => SatisfactionRating::VeryUnsatisfied,
        SatisfactionRating::Neutral => SatisfactionRating::Unsatisfied,
        SatisfactionRating::Satisfied => SatisfactionRating::Neutral,
        SatisfactionRating::VerySatisfied => SatisfactionRating::Satisfied,
    }
}

/// Checks a mood (see `spec_update_mood`); a pet without this mood is left alone.
pub fn update_mood(delta: u64, condition: bool, mood: &mut Option<MoodState>)
    requires
        (*old(mood)) is Some ==> (*old(mood))->Some_0.timer.elapsed + delta <= u64::MAX,
    ensures
        *final(mood) == match *old(mood) {
            Some(m) => Some(spec_update_mood(m, delta as int, condition)),
            None => None,
        },
{
    if let Some(m) = mood {
        m.timer.tick(delta);
        if m.timer.just_finished() {
            if condition {
                m.satisfaction = m.satisfaction.step_up();
            } else {
                m.satisfaction = m.satisfaction.step_down();
            }
        }
    }
}

/// A pet is happy about cleanliness while there is no poop around.
pub fn update_cleanliness_mood(delta: u64, poop_count: usize, mood: &mut Mood)
    requires
        old(mood).cleanliness is Some ==> old(mood).cleanliness->Some_0.timer.elapsed + delta
            <= u64::MAX,
    ensures
        final(mood).fun == old(mood).fun,
        final(mood).money == old(mood).money,
        final(mood).cleanliness == match old(mood).cleanliness {
            Some(m) => Some(spec_update_mood(m, delta as int, poop_count < 1)),
            None => None,
        },
{
    update_mood(delta, poop_count < 1, &mut mood.cleanliness);
}

/// A pet is happy about fun while its fun meter is full.
pub fn update_fun_mood(delta: u64, fun_filled: bool, mood: &mut Mood)
    requires
        old(mood).fun is Some ==> old(mood).fun->Some_0.timer.elapsed + delta <= u64::MAX,
    ensures
        final(mood).cleanliness == old(mood).cleanliness,
        final(mood).money == old(mood).money,
        final(mood).fun == match old(mood).fun {
            Some(m) => Some(spec_update_mood(m, delta as int, fun_filled)),
            None => None,
        },
{
    update_mood(delta, fun_filled, &mut mood.fun);
}

/// What a pet that cares about money remembers.
#[derive(Clone, Copy, Debug, PartialEq, Eq)]
pub struct MoneyHungry {
    /// A balance at or above this always pleases the pet.
    pub max_care: Money,
    /// The player's balance at the last check.
    pub previous_balance: Money,
}

/// Checks the money mood: at each completed period the pet is pleased when
/// the player's balance reached `max_care` or grew since the last check, and
/// displeased otherwise; the balance is then remembered.
pub fn update_money_mood(delta: u64, player_balance: Money, money: &mut MoneyHungry, mood: &mut Mood)
    requires
        old(mood).money is Some ==> old(mood).money->Some_0.timer.elapsed + delta <= u64::MAX,
    ensures
        final(mood).cleanliness == old(mood).cleanliness,
        final(mood).fun == old(mood).fun,
        match old(mood).money {
            Some(m) => {
                let t = spec_tick(m.timer, delta as int);
                let pleased = player_balance >= old(money).max_care || old(money).previous_balance
                    < player_balance;
                &&& final(mood).money == Some(spec_update_mood(m, delta as int, pleased))
                &&& *final(money) == if t.times_finished_this_tick > 0 {
                    MoneyHungry { max_care: old(money).max_care, previous_balance: player_balance }
                } else {
                    *old(money)
                }
            },
            None => {
                &&& final(mood).money is None
                &&& *final(money) == *old(money)
            },
        },
{
    if let Some(m) = &mut mood.money {
        m.timer.tick(delta);
        if m.timer.just_finished() {
            if player_balance >= money.max_care || money.previous_balance < player_balance {
                m.satisfaction = m.satisfaction.step_up();
            } else {
                m.satisfaction = m.satisfaction.step_down();
            }
            money.previous_balance = player_balance;
        }
    }
}

// ---------------------------------------------------------------------------
// Hunger
// ---------------------------------------------------------------------------

/// How hungry a pet is.
#[derive(Clone, Copy, Debug, PartialEq, Eq)]
pub enum MoodHungerState {
    Filled,
    Hungry,
    Starving,
}

/// Where a pet's stomach stands against the thresholds hunger moods use.
#[derive(Clone, Copy, Debug, PartialEq, Eq)]
pub struct HungerReading {
    /// Filled to less than a tenth.
    pub below_tenth: bool,
    /// Filled to less than a twentieth.
    pub below_twentieth: bool,
    /// Filled to more than a tenth.
    pub above_tenth: bool,
    /// Filled to more than a twentieth.
    pub above_twentieth: bool,
}

/// The hunger mood: its state, how long it has been in it, and how long the
/// stomach has been low enough to make it worse. Durations are in nanoseconds.
#[derive(Clone, Copy, Debug, PartialEq, Eq)]
pub struct MoodHunger {
    pub check_timer: RepeatingTimer,
    pub state: MoodHungerState,
    pub state_duration: u64,
    pub dropdown_counter: u64,
}

impl MoodHunger {
    /// A filled pet, just fed.
    pub fn new() -> (m: Self)
        ensures
            m.check_timer == RepeatingTimer::new_spec(HUNGER_MOOD_UPDATE),
            m.state == MoodHungerState::Filled,
            m.state_duration == 0,
            m.dropdown_counter == 0,
    {
        MoodHunger {
            check_timer: RepeatingTimer::new(HUNGER_MOOD_UPDATE),
            state: MoodHungerState::Filled,
            state_duration: 0,
            dropdown_counter: 0,
        }
    }

    fn change_state(&mut self, new_state: MoodHungerState)
        ensures
            final(self).state == new_state,
            final(self).state_duration == 0,
            final(self).dropdown_counter == 0,
            final(self).check_timer == old(self).check_timer,
    {
        self.state = new_state;
        self.state_duration = 0;
        self.dropdown_counter = 0;
    }
}

/// What `delta` nanoseconds do to the hunger mood:
/// - a filled pet whose stomach is below a tenth counts down, and after more
///   than twenty minutes of that becomes hungry;
/// - a hungry pet below a twentieth counts down and after more than an hour
///   starves; above a tenth it is filled again;
/// - a starving pet above a twentieth is merely hungry again.
/// Changing state resets both durations; otherwise the time in the state grows.
pub open spec fn spec_hunger_step(m: MoodHunger, delta: int, r: HungerReading) -> MoodHunger {
    let d = (m.state_duration + delta) as u64;
    let changed = |s: MoodHungerState|
        MoodHunger { check_timer: m.check_timer, state: s, state_duration: 0, dropdown_counter: 0 };
    match m.state {
        MoodHungerState::Filled => {
            if r.below_tenth {
                let c = (m.dropdown_counter + delta) as u64;
                if c > TWENTY_MINUTES {
                    changed(MoodHungerState::Hungry)
                } else {
                    MoodHunger { state_duration: d, dropdown_counter: c, ..m }
                }
            } else {
                MoodHunger { state_duration: d, ..m }
            }
        },
        MoodHungerState::Hungry => {
            if r.below_twentieth {
                let c = (m.dropdown_counter + delta) as u64;
                if c > ONE_HOUR {
                    changed(MoodHungerState::Starving)
                } else {
                    MoodHunger { state_duration: d, dropdown_counter: c, ..m }
                }
            } else if r.above_tenth {
                changed(MoodHungerState::Filled)
            } else {
                MoodHunger { state_duration: d, ..m }
            }
        },
        MoodHungerState::Starving => {
            if r.above_twentieth {
                changed(MoodHungerState::Hungry)
            } else {
                MoodHunger { state_duration: d, ..m }
            }
        },
    }
}

/// Advances the hunger mood by `delta` nanoseconds (see `spec_hunger_step`).
pub fn update_hunger_mood(delta: u64, reading: HungerReading, mood: &mut MoodHunger)
    requires
        old(mood).state_duration + delta <= u64::MAX,
        old(mood).dropdown_counter + delta <= u64::MAX,
    ensures
        *final(mood) == spec_hunger_step(*old(mood), delta as int, reading),
{
    match mood.state {
        MoodHungerState::Filled => {
            mood.state_duration = mood.state_duration + delta;
            if reading.below_tenth {
                mood.dropdown_counter = mood.dropdown_counter + delta;
                if mood.dropdown_counter > TWENTY_MINUTES {
                    mood.change_state(MoodHungerState::Hungry);
                }
            }
        },
        MoodHungerState::Hungry => {
            mood.state_duration = mood.state_duration + delta;
            if reading.below_twentieth {
                mood.dropdown_counter = mood.dropdown_counter + delta;
                if mood.dropdown_counter > ONE_HOUR {
                    mood.change_state(MoodHungerState::Starving);
                }
            } else if reading.above_tenth {
                mood.change_state(MoodHungerState::Filled);
            }
        },
        MoodHungerState::Starving => {
            mood.state_duration = mood.state_duration + delta;
            if reading.above_twentieth {
                mood.change_state(MoodHungerState::Hungry);
            }
        },
    }
}

/// Hunger moves one step at a time: a filled pet never starves at once and a
/// starving pet is never filled at once; any change of state starts the
/// durations over.
pub proof fn lemma_hunger_moves_one_step(m: MoodHunger, delta: int, r: HungerReading)
    ensures
        ({
            let n = spec_hunger_step(m, delta, r);
            &&& m.state == MoodHungerState::Filled ==> n.state != MoodHungerState::Starving
            &&& m.state == MoodHungerState::Starving ==> n.state != MoodHungerState::Filled
            &&& n.state != m.state ==> n.state_duration == 0 && n.dropdown_counter == 0
            &&& n.check_timer == m.check_timer
        }),
{
}


/// The readings agree with one fill level: below a twentieth, exactly a
/// twentieth, between a twentieth and a tenth, exactly a tenth, or above a
/// tenth.
pub open spec fn reads_one_level(r: HungerReading) -> bool {
    let HungerReading { below_tenth: bt, below_twentieth: bw, above_tenth: at, above_twentieth: aw } = r;
    ||| (bt && bw && !at && !aw)
    ||| (bt && !bw && !at && !aw)
    ||| (bt && !bw && !at && aw)
    ||| (!bt && !bw && !at && aw)
    ||| (!bt && !bw && at && aw)
}

/// With readings of one fill level, hunger changes exactly as follows: a
/// filled pet becomes hungry only below a tenth once the time below passes
/// twenty minutes; a hungry pet starves only below a twentieth once the time
/// below passes an hour, and is filled again exactly when above a tenth; a
/// starving pet is hungry again exactly when above a twentieth. Without a
/// change, the time in the state grows by `delta`.
pub proof fn lemma_hunger_transitions(m: MoodHunger, delta: int, r: HungerReading)
    requires
        reads_one_level(r),
        0 <= delta,
        m.state_duration + delta <= u64::MAX,
        m.dropdown_counter + delta <= u64::MAX,
    ensures
        ({
            let n = spec_hunger_step(m, delta, r);
            &&& m.state == MoodHungerState::Filled ==> (n.state == MoodHungerState::Hungry <==> (
            r.below_tenth && m.dropdown_counter + delta > TWENTY_MINUTES))
            &&& m.state == MoodHungerState::Hungry ==> (n.state == MoodHungerState::Starving <==> (
            r.below_twentieth && m.dropdown_counter + delta > ONE_HOUR))
            &&& m.state == MoodHungerState::Hungry ==> (n.state == MoodHungerState::Filled
                <==> r.above_tenth)
            &&& m.state == MoodHungerState::Starving ==> (n.state == MoodHungerState::Hungry
                <==> r.above_twentieth)
            &&& m.state == MoodHungerState::Filled ==> n.state != MoodHungerState::Starving
            &&& m.state == MoodHungerState::Starving ==> n.state != MoodHungerState::Filled
            &&& n.state == m.state ==> n.state_duration == m.state_duration + delta
            &&& n.state != m.state ==> n.state_duration == 0 && n.dropdown_counter == 0
        }),
{
}

/// Whether time now counts toward the next state down: for a filled pet,
/// time below a tenth; for a hungry pet, time below a twentieth; a starving
/// pet has no state further down.
pub open spec fn counts_down(state: MoodHungerState, r: HungerReading) -> bool {
    match state {
        MoodHungerState::Filled => r.below_tenth,
        MoodHungerState::Hungry => r.below_twentieth,
        MoodHungerState::Starving => false,
    }
}

/// Only time spent low counts toward getting hungrier: while the state
/// stays, the count grows by `delta` when the stomach is low enough and is
/// left as it is otherwise, and the time in the state grows by `delta`. A
/// filled pet turns hungry only when it is below a tenth and the count with
/// this step passes twenty minutes; a hungry pet starves only below a
/// twentieth once the count passes an hour.
pub proof fn lemma_hunger_counts_low_time(m: MoodHunger, delta: int, r: HungerReading)
    requires
        0 <= delta,
        m.state_duration + delta <= u64::MAX,
        counts_down(m.state, r) ==> m.dropdown_counter + delta <= u64::MAX,
    ensures
        ({
            let n = spec_hunger_step(m, delta, r);
            &&& n.state == m.state ==> n.dropdown_counter == m.dropdown_counter + if counts_down(
                m.state,
                r,
            ) {
                delta
            } else {
                0
            }
            &&& n.state == m.state ==> n.state_duration == m.state_duration + delta
            &&& m.state == MoodHungerState::Filled && n.state == MoodHungerState::Hungry ==> r.below_tenth
                && m.dropdown_counter + delta > TWENTY_MINUTES
            &&& m.state == MoodHungerState::Hungry && n.state == MoodHungerState::Starving
                ==> r.below_twentieth && m.dropdown_counter + delta > ONE_HOUR
        }),
{
}

/// The moods after the first `n` of a run of (time, reading) steps.
pub open spec fn hunger_run(m: MoodHunger, steps: Seq<(int, HungerReading)>, n: int) -> MoodHunger
    decreases n,
{
    if n <= 0 {
        m
    } else {
        spec_hunger_step(hunger_run(m, steps, n - 1), steps[n - 1].0, steps[n - 1].1)
    }
}

/// The time spent below a tenth in the first `n` steps of a run.
pub open spec fn time_below_tenth(steps: Seq<(int, HungerReading)>, n: int) -> int
    decreases n,
{
    if n <= 0 {
        0
    } else {
        time_below_tenth(steps, n - 1) + if steps[n - 1].1.below_tenth {
            steps[n - 1].0
        } else {
            0
        }
    }
}

/// The time spent in the first `n` steps of a run.
pub open spec fn run_time(steps: Seq<(int, HungerReading)>, n: int) -> int
    decreases n,
{
    if n <= 0 {
        0
    } else {
        run_time(steps, n - 1) + steps[n - 1].0
    }
}

/// Over a run of steps in which a pet stays filled, its count is exactly
/// the time it spent below a tenth; so a filled pet turns hungry only after
/// more than twenty minutes, in all, below a tenth.
pub proof fn lemma_filled_pet_counts_time_below_a_tenth(
    m: MoodHunger,
    steps: Seq<(int, HungerReading)>,
    n: int,
)
    requires
        0 <= n <= steps.len(),
        m.state == MoodHungerState::Filled,
        forall|k: int| 0 <= k < steps.len() ==> (#[trigger] steps[k]).0 >= 0,
        m.state_duration + run_time(steps, n) <= u64::MAX,
        m.dropdown_counter + time_below_tenth(steps, n) <= u64::MAX,
        forall|k: int| 0 <= k < n ==> (#[trigger] hunger_run(m, steps, k)).state == MoodHungerState::Filled,
    ensures
        hunger_run(m, steps, n).state == MoodHungerState::Filled ==> hunger_run(m, steps, n).dropdown_counter
            == m.dropdown_counter + time_below_tenth(steps, n),
        hunger_run(m, steps, n).state == MoodHungerState::Filled ==> hunger_run(m, steps, n).state_duration
            == m.state_duration + run_time(steps, n),
        hunger_run(m, steps, n).state == MoodHungerState::Hungry ==> m.dropdown_counter
            + time_below_tenth(steps, n) > TWENTY_MINUTES,
        hunger_run(m, steps, n).state != MoodHungerState::Starving,
    decreases n,
{
    if n > 0 {
        lemma_run_sums_grow(steps, n - 1, n);
        lemma_filled_pet_counts_time_below_a_tenth(m, steps, n - 1);
        let prev = hunger_run(m, steps, n - 1);
        assert(prev.state == MoodHungerState::Filled);
        lemma_hunger_counts_low_time(prev, steps[n - 1].0, steps[n - 1].1);
    }
}

proof fn lemma_run_sums_grow(steps: Seq<(int, HungerReading)>, a: int, b: int)
    requires
        0 <= a <= b <= steps.len(),
        forall|k: int| 0 <= k < steps.len() ==> (#[trigger] steps[k]).0 >= 0,
    ensures
        0 <= time_below_tenth(steps, a) <= time_below_tenth(steps, b),
        0 <= run_time(steps, a) <= run_time(steps, b),
        time_below_tenth(steps, b) <= run_time(steps, b),
    decreases b,
{
    if b > a {
        lemma_run_sums_grow(steps, a, b - 1);
        assert(steps[b - 1].0 >= 0);
    } else if b > 0 {
        lemma_run_sums_grow(steps, b - 1, b - 1);
        assert(steps[b - 1].0 >= 0);
    }
}

} // verus!

