use bad_apple_flut::pacing::FrameTimer;

#[test]
fn plans_the_full_interval_when_there_is_no_lag() {
    let mut t = FrameTimer::new(100);
    assert_eq!(t.start(), 100);
    assert_eq!(t.wait(100), 0);
}

#[test]
fn overrun_becomes_lag_and_borrows_from_the_next_sleep() {
    let mut t = FrameTimer::new(100);
    let planned = t.start();
    assert_eq!(planned, 100);
    // the frame took 150 ms in all: 50 ms over the planned sleep
    assert_eq!(t.wait(150), 50);
    // the next cycle only sleeps the remaining budget
    assert_eq!(t.start(), 50);
    assert_eq!(t.wait(50), 0);
}

#[test]
fn lag_larger_than_the_interval_is_paid_off_across_cycles() {
    let mut t = FrameTimer::new(100);
    t.start();
    assert_eq!(t.wait(350), 250);
    // no sleep budget at all this cycle; 100 ms of debt is discharged
    assert_eq!(t.start(), 0);
    assert_eq!(t.wait(80), 150 + 80);
}

#[test]
fn fast_frames_never_accumulate_lag() {
    let mut t = FrameTimer::new(100);
    for _ in 0..1000 {
        let planned = t.start();
        assert_eq!(planned, 100);
        let lag = t.wait(90);
        assert_eq!(lag, 0);
    }
}

#[test]
fn frames_exactly_on_budget_never_accumulate_lag() {
    let mut t = FrameTimer::new(100);
    for _ in 0..1000 {
        t.start();
        assert_eq!(t.wait(100), 0);
    }
}
