use sardips::timer::RepeatingTimer;

#[test]
fn a_timer_keeps_the_remainder() {
    let mut t = RepeatingTimer::new(100);
    t.tick(50);
    assert!(!t.just_finished());
    assert_eq!(t.elapsed, 50);
    t.tick(260);
    assert!(t.just_finished());
    assert_eq!(t.times_finished_this_tick, 3);
    assert_eq!(t.elapsed, 10);
    t.reset();
    assert_eq!(t.elapsed, 0);
    assert!(!t.finished);
}
