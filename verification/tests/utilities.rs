use json_parser::{printable_large_num, Defer, StopWatch};
use std::cell::Cell;
use std::time::{Duration, Instant};

#[test]
fn defer_counter_loop() {
    let counter = Cell::new(0usize);
    let counter_inc = || -> usize {
        counter.set(counter.get() + 1);
        counter.get()
    };

    let loop_count = 3;
    let _defer_push_func = Defer::new(|| {
        assert_eq!(counter_inc(), (loop_count * 2) + 1);
    });
    for i in 0..loop_count {
        let _defer_push_loop = Defer::new(|| {
            assert_eq!(counter_inc(), (i * 2) + 2);
        });
        assert_eq!(counter_inc(), (i * 2) + 1);
        // _defer_push_loop exits scope each iteration of loop
    }
    // _defer_push_func exits scope when test exits scope
}

#[test]
fn defer_runs_once_at_scope_end() {
    let runs = Cell::new(0usize);
    {
        let _guard = Defer::new(|| runs.set(runs.get() + 1));
        assert_eq!(runs.get(), 0);
    }
    assert_eq!(runs.get(), 1);
}

#[test]
fn large_numbers_are_grouped_by_three() {
    assert_eq!(printable_large_num(0), "0");
    assert_eq!(printable_large_num(7), "7");
    assert_eq!(printable_large_num(999), "999");
    assert_eq!(printable_large_num(1000), "1,000");
    assert_eq!(printable_large_num(1_002_003), "1,002,003");
    assert_eq!(printable_large_num(12_345_678), "12,345,678");
    assert_eq!(printable_large_num(100_000), "100,000");
    assert_eq!(printable_large_num(u64::MAX), "18,446,744,073,709,551,615");
}

fn spin_for(millis: u64) {
    let begin = Instant::now();
    while begin.elapsed() < Duration::from_millis(millis) {}
}

#[test]
fn stopwatch_laps_follow_the_clock() {
    let mut watch = StopWatch::now();
    spin_for(5);
    let nanos = watch.lap_nanos();
    assert!(nanos >= 5_000_000);
    spin_for(5);
    let micros = watch.lap_micros();
    assert!(micros >= 5_000);
    spin_for(5);
    let millis = watch.lap_millis();
    assert!(millis >= 5);
    spin_for(5);
    watch.reset();
    assert!(watch.lap_millis() < 5);
}
