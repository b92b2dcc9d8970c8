use sardips::mood::{
    add_mood, update_cleanliness_mood, update_fun_mood, update_hunger_mood, update_money_mood,
    HungerReading, MoneyHungry, Mood, MoodHunger, MoodHungerState, SatisfactionRating,
    CLEANLINESS_MOOD_UPDATE, FUN_MOOD_UPDATE, MONEY_MOOD_UPDATE, ONE_HOUR, TWENTY_MINUTES,
};

fn reading(below_tenth: bool, below_twentieth: bool, above_tenth: bool, above_twentieth: bool) -> HungerReading {
    HungerReading { below_tenth, below_twentieth, above_tenth, above_twentieth }
}

#[test]
fn ratings_step_within_the_scale() {
    assert_eq!(SatisfactionRating::Neutral.step_up(), SatisfactionRating::Satisfied);
    assert_eq!(SatisfactionRating::VerySatisfied.step_up(), SatisfactionRating::VerySatisfied);
    assert_eq!(SatisfactionRating::Neutral.step_down(), SatisfactionRating::Unsatisfied);
    assert_eq!(SatisfactionRating::VeryUnsatisfied.step_down(), SatisfactionRating::VeryUnsatisfied);
}

#[test]
fn moods_move_once_per_period() {
    let mut mood = Mood::new();
    update_cleanliness_mood(CLEANLINESS_MOOD_UPDATE, 0, &mut mood);
    assert!(mood.cleanliness.is_none());
    add_mood(&mut mood.cleanliness, CLEANLINESS_MOOD_UPDATE);
    add_mood(&mut mood.fun, FUN_MOOD_UPDATE);
    update_cleanliness_mood(CLEANLINESS_MOOD_UPDATE - 1, 3, &mut mood);
    assert_eq!(mood.cleanliness.unwrap().satisfaction, SatisfactionRating::Neutral);
    update_cleanliness_mood(1, 3, &mut mood);
    assert_eq!(mood.cleanliness.unwrap().satisfaction, SatisfactionRating::Unsatisfied);
    update_cleanliness_mood(CLEANLINESS_MOOD_UPDATE, 0, &mut mood);
    assert_eq!(mood.cleanliness.unwrap().satisfaction, SatisfactionRating::Neutral);
    update_fun_mood(FUN_MOOD_UPDATE, true, &mut mood);
    assert_eq!(mood.fun.unwrap().satisfaction, SatisfactionRating::Satisfied);
}

#[test]
fn money_mood_likes_a_growing_balance() {
    let mut mood = Mood::new();
    add_mood(&mut mood.money, MONEY_MOOD_UPDATE);
    let mut money = MoneyHungry { max_care: 10_000, previous_balance: 500 };
    update_money_mood(MONEY_MOOD_UPDATE, 400, &mut money, &mut mood);
    assert_eq!(mood.money.unwrap().satisfaction, SatisfactionRating::Unsatisfied);
    assert_eq!(money.previous_balance, 400);
    update_money_mood(MONEY_MOOD_UPDATE, 450, &mut money, &mut mood);
    assert_eq!(mood.money.unwrap().satisfaction, SatisfactionRating::Neutral);
    update_money_mood(1, 20_000, &mut money, &mut mood);
    assert_eq!(money.previous_balance, 450);
}

#[test]
fn hunger_moves_one_state_at_a_time() {
    let mut m = MoodHunger::new();
    assert_eq!(m.state, MoodHungerState::Filled);
    update_hunger_mood(TWENTY_MINUTES, reading(true, false, false, true), &mut m);
    assert_eq!(m.state, MoodHungerState::Filled);
    assert_eq!(m.dropdown_counter, TWENTY_MINUTES);
    update_hunger_mood(1, reading(true, false, false, true), &mut m);
    assert_eq!(m.state, MoodHungerState::Hungry);
    assert_eq!(m.state_duration, 0);
    update_hunger_mood(ONE_HOUR + 1, reading(true, true, false, false), &mut m);
    assert_eq!(m.state, MoodHungerState::Starving);
    update_hunger_mood(5, reading(false, false, true, true), &mut m);
    assert_eq!(m.state, MoodHungerState::Hungry);
    update_hunger_mood(5, reading(false, false, true, true), &mut m);
    assert_eq!(m.state, MoodHungerState::Filled);
}
