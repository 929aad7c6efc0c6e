use cpu_timer::clock::{cpu_freq, Calibration, Timer, DEFAULT_WAIT_MILLISECONDS};

#[test]
fn timer_new_keeps_readings() {
    let t = Timer::new(10_000_000, 42, 7);
    assert_eq!(t.os_freq, 10_000_000);
    assert_eq!(t.os_timer, 42);
    assert_eq!(t.cpu_timer, 7);
}

#[test]
fn linear_clock_gives_ratio_times_os_frequency() {
    let start = Timer::new(1_000_000, 100, 1_000);
    let end = Timer::new(1_000_000, 100 + 100_000, 1_000 + 3 * 100_000);
    assert_eq!(cpu_freq(&start, &end), 3_000_000);
}

#[test]
fn stalled_os_timer_gives_zero_frequency() {
    let start = Timer::new(1_000_000, 500, 1_000);
    let end = Timer::new(1_000_000, 500, 9_000_000);
    assert_eq!(cpu_freq(&start, &end), 0);
}

#[test]
fn os_timer_going_back_counts_as_stalled() {
    let start = Timer::new(1_000_000, 500, 1_000);
    let end = Timer::new(1_000_000, 400, 9_000_000);
    assert_eq!(cpu_freq(&start, &end), 0);
}

#[test]
fn frequency_rounds_down() {
    let start = Timer::new(10, 0, 0);
    let end = Timer::new(10, 3, 10);
    // 10 * 10 / 3
    assert_eq!(cpu_freq(&start, &end), 33);
}

#[test]
fn frequency_saturates_at_u64_max() {
    let start = Timer::new(u64::MAX, 0, 0);
    let end = Timer::new(u64::MAX, 1, 2);
    assert_eq!(cpu_freq(&start, &end), u64::MAX);
}

#[test]
fn calibration_waits_the_window() {
    let c = Calibration::begin(Timer::new(10_000, 1_000, 50), DEFAULT_WAIT_MILLISECONDS);
    assert_eq!(c.wait_ticks, 1_000);
    assert!(!c.window_elapsed(1_000));
    assert!(!c.window_elapsed(1_999));
    assert!(c.window_elapsed(2_000));
    assert!(c.window_elapsed(2_500));
    let f = c.finish(&Timer::new(10_000, 2_000, 50 + 2_000 * 1_000));
    assert_eq!(f, 20_000_000);
}

#[test]
fn calibration_of_zero_milliseconds_is_done_at_once() {
    let c = Calibration::begin(Timer::new(10_000, 1_000, 50), 0);
    assert_eq!(c.wait_ticks, 0);
    assert!(c.window_elapsed(1_000));
    assert_eq!(c.finish(&Timer::new(10_000, 1_000, 80)), 0);
}

#[test]
fn calibration_wait_saturates() {
    let c = Calibration::begin(Timer::new(u64::MAX, 0, 0), u64::MAX);
    assert_eq!(c.wait_ticks, u64::MAX);
}
