use statesync::rate::FpsCounter;

#[test]
fn reports_zero_before_first_full_window() {
    let mut c = FpsCounter::new(0);
    assert_eq!(c.fps, 0);
    assert_eq!(c.update(100), 0);
    assert_eq!(c.update(500), 0);
    assert_eq!(c.update(999), 0);
    assert_eq!(c.frame_count, 3);
}

#[test]
fn reports_count_over_elapsed_at_window_boundary() {
    let mut c = FpsCounter::new(0);
    c.update(250);
    c.update(500);
    c.update(750);
    // The fourth event closes the one-second window: four events over one
    // second is 4000 milli-events per second.
    assert_eq!(c.update(1000), 4000);
    assert_eq!(c.frame_count, 0);
    assert_eq!(c.last_update, 1000);
}

#[test]
fn rate_is_stale_within_the_next_window() {
    let mut c = FpsCounter::new(0);
    c.update(1000);
    let reported = c.fps;
    assert_eq!(c.update(1100), reported);
    assert_eq!(c.update(1900), reported);
}

#[test]
fn late_window_divides_by_real_elapsed_time() {
    let mut c = FpsCounter::new(0);
    // One event after two seconds: half an event per second.
    assert_eq!(c.update(2000), 500);
}

#[test]
fn counts_restart_after_each_window() {
    let mut c = FpsCounter::new(0);
    c.update(1000);
    c.update(1500);
    assert_eq!(c.update(2000), 2000);
}
