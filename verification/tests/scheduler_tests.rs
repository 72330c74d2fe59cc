use price_monitor::scheduler::{Scheduler, SweepState};

#[test]
fn trigger_while_running_is_skipped_not_queued() {
    let mut s = Scheduler::new();
    assert!(s.try_begin());
    assert_eq!(s.state, SweepState::Running);
    assert!(!s.trigger_now());
    assert_eq!(s.state, SweepState::Running);
    assert_eq!(s.started, 1);
    assert_eq!(s.skipped, 1);
    s.finish_sweep();
    assert_eq!(s.state, SweepState::Idle);
    assert!(s.trigger_now());
    assert_eq!(s.started, 2);
    assert_eq!(s.skipped, 1);
}

#[test]
fn timer_tick_while_running_is_skipped_too() {
    let mut s = Scheduler::new();
    assert!(s.try_begin());
    assert!(!s.try_begin());
    assert_eq!(s.started, 1);
    assert_eq!(s.skipped, 1);
}

#[test]
fn stop_lets_the_running_sweep_finish_but_starts_no_new_one() {
    let mut s = Scheduler::new();
    assert!(s.try_begin());
    s.stop();
    assert_eq!(s.state, SweepState::Running);
    s.finish_sweep();
    assert_eq!(s.completed, 1);
    assert!(!s.trigger_now());
    assert!(!s.try_begin());
    assert_eq!(s.started, 1);
}

#[test]
fn counters_track_each_completed_sweep() {
    let mut s = Scheduler::new();
    for round in 1..=3u64 {
        assert!(s.try_begin());
        s.finish_sweep();
        assert_eq!(s.started, round);
        assert_eq!(s.completed, round);
    }
    assert_eq!(s.skipped, 0);
}
