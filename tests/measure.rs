use iobench::measure::{measure_read_file, measure_write_file, Measurement, MAX_ITERATIONS};

#[test]
fn budget_stops_after_three_seconds() {
    let m = measure_read_file(|| 1_000_000_000);
    assert_eq!(m.iterations(), 3);
    assert_eq!(m.total_nanos(), 3_000_000_000);
    assert_eq!(m.average_nanos(), 1_000_000_000);
}

#[test]
fn fast_passes_stop_at_eleven() {
    let m = measure_write_file(|| 1_000);
    assert_eq!(m.iterations(), MAX_ITERATIONS);
    assert_eq!(m.iterations(), 11);
    assert_eq!(m.total_nanos(), 11_000);
    assert_eq!(m.average_nanos(), 1_000);
}

#[test]
fn one_slow_pass_is_enough() {
    let m = measure_read_file(|| 5_000_000_000);
    assert_eq!(m.iterations(), 1);
    assert_eq!(m.average_nanos(), 5_000_000_000);
}

#[test]
fn totals_saturate() {
    let mut m = Measurement::new();
    assert!(m.should_continue());
    m.record(u64::MAX - 1);
    m.record(10);
    assert_eq!(m.total_nanos(), u64::MAX);
    assert_eq!(m.iterations(), 2);
    assert!(!m.should_continue());
    assert_eq!(m.average_nanos(), u64::MAX / 2);
}
