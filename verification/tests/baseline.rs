use mm_engine::baseline::{Baseline, INITIAL_TICK_NANOS, SAMPLE_CAP, WINDOW};

#[test]
fn baseline_starts_at_one_millisecond() {
    assert_eq!(INITIAL_TICK_NANOS, 1_000_000);
    assert_eq!(WINDOW, 50);
    assert_eq!(Baseline::new().get_average(), 1_000_000);
}

#[test]
fn baseline_is_the_average_rounded_down() {
    let mut baseline = Baseline::new();
    baseline.add_sample(10);
    assert_eq!(baseline.get_average(), 10);
    baseline.add_sample(20);
    assert_eq!(baseline.get_average(), 15);
    baseline.add_sample(1);
    assert_eq!(baseline.get_average(), 10);
    baseline.add_sample(1);
    assert_eq!(baseline.get_average(), 8);
}

#[test]
fn baseline_of_ticks_that_took_no_time_is_zero() {
    let mut baseline = Baseline::new();
    baseline.add_sample(0);
    assert_eq!(baseline.get_average(), 0);
}

#[test]
fn baseline_forgets_the_oldest_tick() {
    let mut baseline = Baseline::new();
    for n in 1..=50u64 {
        baseline.add_sample(n);
    }
    assert_eq!(baseline.get_average(), 25);
    baseline.add_sample(51);
    assert_eq!(baseline.get_average(), 26);
    for _ in 0..50 {
        baseline.add_sample(7);
    }
    assert_eq!(baseline.get_average(), 7);
}

#[test]
fn baseline_caps_long_ticks() {
    let mut baseline = Baseline::new();
    for _ in 0..60 {
        baseline.add_sample(u64::MAX);
    }
    assert_eq!(baseline.get_average(), SAMPLE_CAP);
    baseline.add_sample(SAMPLE_CAP - 50);
    assert_eq!(baseline.get_average(), SAMPLE_CAP - 1);
}
