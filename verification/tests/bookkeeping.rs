use json_parser::{
    answers_layout, cluster_sizes, cpu_clocks_per_second, frequency_unit, os_wait_clocks,
    AnswersError, AnswersLayout, FrequencyUnit, ProfileBlock, Profiler, RepetitionTestData,
    RunningCount, PROFILE_CAPACITY,
};

#[test]
fn wait_clocks_round_the_frequency_down_first() {
    assert_eq!(os_wait_clocks(10_000_000, 100), Some(1_000_000));
    assert_eq!(os_wait_clocks(1_999, 3), Some(3));
    assert_eq!(os_wait_clocks(999, 7), Some(0));
    assert_eq!(os_wait_clocks(10_000_000, 0), Some(0));
    assert_eq!(os_wait_clocks(u64::MAX, 1000), Some(u64::MAX / 1000 * 1000));
    assert_eq!(os_wait_clocks(u64::MAX, 1001), None);
}

#[test]
fn frequency_is_cycles_times_ticks_per_second_over_ticks() {
    assert_eq!(cpu_clocks_per_second(300_000_000, 10_000_000, 1_000_000), Some(3_000_000_000));
    assert_eq!(cpu_clocks_per_second(7, 3, 2), Some(10));
    assert_eq!(cpu_clocks_per_second(0, 10, 5), Some(0));
    assert_eq!(cpu_clocks_per_second(7, 3, 0), None);
    assert_eq!(cpu_clocks_per_second(u64::MAX, 2, 1), None);
    assert_eq!(cpu_clocks_per_second(u64::MAX, 1, 1), Some(u64::MAX));
}

#[test]
fn frequency_units_change_at_each_thousand() {
    assert_eq!(frequency_unit(0), FrequencyUnit::Hertz);
    assert_eq!(frequency_unit(999), FrequencyUnit::Hertz);
    assert_eq!(frequency_unit(1_000), FrequencyUnit::Kilohertz);
    assert_eq!(frequency_unit(999_999), FrequencyUnit::Kilohertz);
    assert_eq!(frequency_unit(1_000_000), FrequencyUnit::Megahertz);
    assert_eq!(frequency_unit(999_999_999), FrequencyUnit::Megahertz);
    assert_eq!(frequency_unit(1_000_000_000), FrequencyUnit::Gigahertz);
    assert_eq!(frequency_unit(999_999_999_999), FrequencyUnit::Gigahertz);
    assert_eq!(frequency_unit(1_000_000_000_000), FrequencyUnit::Terahertz);
    assert_eq!(frequency_unit(u64::MAX), FrequencyUnit::Terahertz);
}

#[test]
fn frequency_units_have_name_divisor_and_precision() {
    let units = [
        (FrequencyUnit::Hertz, "Hz", 1u64, 0usize),
        (FrequencyUnit::Kilohertz, "KHz", 1_000, 3),
        (FrequencyUnit::Megahertz, "MHz", 1_000_000, 2),
        (FrequencyUnit::Gigahertz, "GHz", 1_000_000_000, 1),
        (FrequencyUnit::Terahertz, "THz", 1_000_000_000_000, 1),
    ];
    for (unit, name, divisor, precision) in units {
        assert_eq!(unit.name(), name);
        assert_eq!(unit.divisor(), divisor);
        assert_eq!(unit.precision(), precision);
    }
}

#[test]
fn answers_are_whole_numbers_with_the_mean_last() {
    assert_eq!(answers_layout(0), Err(AnswersError::Empty));
    assert_eq!(answers_layout(7), Err(AnswersError::NotWholeNumbers));
    assert_eq!(answers_layout(12), Err(AnswersError::NotWholeNumbers));
    assert_eq!(answers_layout(8), Ok(AnswersLayout { count: 0, mean_offset: 0 }));
    assert_eq!(answers_layout(32), Ok(AnswersLayout { count: 3, mean_offset: 24 }));
}

#[test]
fn clusters_take_all_pairs() {
    assert_eq!(cluster_sizes(0), (0, 0));
    assert_eq!(cluster_sizes(4), (0, 4));
    assert_eq!(cluster_sizes(5), (1, 0));
    assert_eq!(cluster_sizes(1_000_003), (200_000, 3));
    let (each, last) = cluster_sizes(u64::MAX);
    assert_eq!(5 * each + last, u64::MAX);
}

#[test]
fn repetition_keeps_minimum_and_maximum() {
    let mut data = RepetitionTestData::new();
    let mut running = RunningCount::new();
    assert_eq!(data.min_clocks, u64::MAX);
    assert_eq!(data.max_clocks, 0);

    // the first run is a new minimum, and so not yet a maximum
    data.record(&mut running, 100, 7);
    assert_eq!((data.iterations, data.total_clocks, data.total_page_faults), (1, 100, 7));
    assert_eq!((data.min_clocks, data.min_page_faults), (100, 7));
    assert_eq!((data.max_clocks, data.max_page_faults), (0, 0));
    assert_eq!(running, RunningCount { iterations: 0, clocks: 0 });

    // a slower run is the new maximum and counts towards the end
    data.record(&mut running, 150, 9);
    assert_eq!((data.iterations, data.total_clocks, data.total_page_faults), (2, 250, 16));
    assert_eq!((data.min_clocks, data.min_page_faults), (100, 7));
    assert_eq!((data.max_clocks, data.max_page_faults), (150, 9));
    assert_eq!(running, RunningCount { iterations: 1, clocks: 150 });

    // a run between the two changes neither
    data.record(&mut running, 120, 1);
    assert_eq!((data.min_clocks, data.max_clocks), (100, 150));
    assert_eq!(running, RunningCount { iterations: 2, clocks: 270 });

    // a run as fast as the minimum is no new minimum
    data.record(&mut running, 100, 0);
    assert_eq!((data.min_clocks, data.min_page_faults), (100, 7));
    assert_eq!(running, RunningCount { iterations: 3, clocks: 370 });

    // a new minimum starts the count over
    data.record(&mut running, 90, 2);
    assert_eq!((data.min_clocks, data.min_page_faults), (90, 2));
    assert_eq!((data.iterations, data.total_clocks, data.total_page_faults), (5, 560, 19));
    assert_eq!(running, RunningCount { iterations: 0, clocks: 0 });
}

#[test]
fn repetition_is_over_after_enough_runs_and_clocks() {
    let running = RunningCount { iterations: 10, clocks: 2_000 };
    assert!(running.is_over(10, 2_000));
    assert!(running.is_over(0, 0));
    assert!(!running.is_over(11, 2_000));
    assert!(!running.is_over(10, 2_001));
}

#[test]
fn profiler_starts_unused() {
    let profiler = Profiler::new();
    assert_eq!(profiler.scope(), 0);
    for index in [0, 1, PROFILE_CAPACITY - 1] {
        let anchor = profiler.anchor(index);
        assert_eq!(anchor.tag, "");
        assert_eq!(
            (anchor.elapsed_exclusive, anchor.elapsed_inclusive, anchor.invocations),
            (0, 0, 0)
        );
    }
}

#[test]
fn profiler_charges_children_to_their_parents() {
    let mut profiler = Profiler::new();
    profiler.init(1_000);
    assert_eq!(profiler.anchor(0).tag, "Application");

    let outer_index = profiler.next_index();
    let inner_index = profiler.next_index();
    assert_eq!((outer_index, inner_index), (1, 2));

    let outer = ProfileBlock::new(&mut profiler, "outer", outer_index, 1_100);
    assert_eq!(profiler.scope(), 1);
    assert_eq!((outer.parent_index, outer.profile_index, outer.creation_stamp), (0, 1, 1_100));
    let inner = ProfileBlock::new(&mut profiler, "inner", inner_index, 1_150);
    assert_eq!(profiler.scope(), 2);
    assert_eq!((inner.parent_index, inner.old_elapsed_inclusive), (1, 0));

    profiler.close(&inner, 1_180);
    assert_eq!(profiler.scope(), 1);
    let anchor = profiler.anchor(2);
    assert_eq!(anchor.tag, "inner");
    assert_eq!(
        (anchor.elapsed_exclusive, anchor.elapsed_inclusive, anchor.invocations),
        (30, 30, 1)
    );
    // the time of the child is owed by the parent until the parent is closed
    assert_eq!(profiler.anchor(1).elapsed_exclusive, 0u64.wrapping_sub(30));

    profiler.close(&outer, 1_300);
    assert_eq!(profiler.scope(), 0);
    let anchor = profiler.anchor(1);
    assert_eq!(anchor.tag, "outer");
    assert_eq!(
        (anchor.elapsed_exclusive, anchor.elapsed_inclusive, anchor.invocations),
        (170, 200, 1)
    );
    assert_eq!(profiler.anchor(0).elapsed_exclusive, 0u64.wrapping_sub(200));

    // a second run of the outer block adds to its anchor
    let outer = ProfileBlock::new(&mut profiler, "outer", outer_index, 1_400);
    assert_eq!(outer.old_elapsed_inclusive, 200);
    profiler.close(&outer, 1_450);
    let anchor = profiler.anchor(1);
    assert_eq!(
        (anchor.elapsed_exclusive, anchor.elapsed_inclusive, anchor.invocations),
        (220, 250, 2)
    );

    assert!(!profiler.close_teardown(1_500));
    let totals = profiler.finish(2_000);
    assert_eq!(totals.total_clocks, 1_000);
    assert_eq!(totals.clocks_profiled, 250);
    let application = profiler.anchor(0);
    assert_eq!((application.elapsed_exclusive, application.elapsed_inclusive), (750, 1_000));
}

#[test]
fn profiler_block_inside_itself_counts_its_time_once_in_exclusive() {
    let mut profiler = Profiler::new();
    profiler.init(0);
    let index = profiler.next_index();
    let outer = ProfileBlock::new(&mut profiler, "again", index, 10);
    let inner = ProfileBlock::new(&mut profiler, "again", index, 20);
    assert_eq!((inner.parent_index, inner.profile_index), (1, 1));
    profiler.close(&inner, 30);
    let anchor = profiler.anchor(1);
    assert_eq!(
        (anchor.elapsed_exclusive, anchor.elapsed_inclusive, anchor.invocations),
        (0, 10, 1)
    );
    profiler.close(&outer, 50);
    let anchor = profiler.anchor(1);
    assert_eq!(
        (anchor.elapsed_exclusive, anchor.elapsed_inclusive, anchor.invocations),
        (40, 40, 2)
    );
}

#[test]
fn profiler_times_the_teardown() {
    let mut profiler = Profiler::new();
    profiler.init(100);
    let index = profiler.next_index();
    let block = ProfileBlock::new(&mut profiler, "work", index, 110);
    profiler.close(&block, 150);
    profiler.time_teardown(160);
    assert!(profiler.close_teardown(190));
    let teardown = profiler.anchor(2);
    assert_eq!(teardown.tag, "app teardown");
    assert_eq!(
        (teardown.elapsed_exclusive, teardown.elapsed_inclusive, teardown.invocations),
        (30, 30, 1)
    );
    assert_eq!(profiler.next_index(), 3);
    let totals = profiler.finish(200);
    assert_eq!(totals.total_clocks, 100);
    assert_eq!(totals.clocks_profiled, 70);
}
