use sardips::simulation::{SimTime, SimulationState, SimulationViewState};

#[test]
fn steps_are_paid_out_of_the_overstep() {
    let mut clock = SimTime::new(1_000);
    assert_eq!(clock.timestep, 1_000_000_000);
    assert!(!clock.expend());
    clock.accumulate(5_000, 2_500_000_000);
    assert_eq!(clock.last_run, 5_000);
    let mut steps = 0;
    while clock.expend() {
        steps += 1;
    }
    assert_eq!(steps, 2);
    assert_eq!(clock.overstep, 500_000_000);
    assert_eq!(clock.elapsed, 2_000_000_000);
}

#[test]
fn time_since_the_last_run() {
    let clock = SimTime::new(1_000);
    assert_eq!(clock.delta_since_last_run(4_000), 3_000);
    assert_eq!(clock.delta_since_last_run(999), u64::MAX);
}

#[test]
fn simulation_starts_paused_and_hidden() {
    assert_eq!(SimulationState::default(), SimulationState::Paused);
    assert_eq!(SimulationViewState::default(), SimulationViewState::Invisible);
    assert!(SimulationViewState::Visible.shows_entities());
    assert!(!SimulationViewState::Invisible.shows_entities());
}

#[test]
fn pending_steps_are_run_all_at_once() {
    let mut clock = SimTime::new(0);
    clock.accumulate(10, 3_700_000_000);
    assert_eq!(clock.run_pending_steps(), 3);
    assert_eq!(clock.overstep, 700_000_000);
    assert_eq!(clock.elapsed, 3_000_000_000);
}
