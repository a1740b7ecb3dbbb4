//! The statistics of running one action again and again until its best
//! time has stood for long enough.

use vstd::prelude::*;

verus! {

/// What all runs of one action so far have taken.
#[derive(Clone, Copy, Debug, PartialEq, Eq, Structural)]
pub struct RepetitionTestData {
    pub iterations: u64,
    pub total_clocks: u64,
    pub total_page_faults: u64,
    pub min_clocks: u64,
    pub min_page_faults: u32,
    pub max_clocks: u64,
    pub max_page_faults: u32,
}

/// What the runs since the last new best time have taken.
#[derive(Clone, Copy, Debug, PartialEq, Eq, Structural)]
pub struct RunningCount {
    pub iterations: u64,
    pub clocks: u64,
}

/// The statistics after one more run of `diff_stamp` clocks and
/// `diff_page_faults` page faults.
///
/// A run faster than all before is the new minimum; else one slower than
/// all before is the new maximum.
pub open spec fn data_after(data: RepetitionTestData, diff_stamp: u64, diff_page_faults: u32)
    -> RepetitionTestData {
    let counted = RepetitionTestData {
        iterations: (data.iterations + 1) as u64,
        total_clocks: (data.total_clocks + diff_stamp) as u64,
        total_page_faults: (data.total_page_faults + diff_page_faults) as u64,
        ..data
    };
    if diff_stamp < data.min_clocks {
        RepetitionTestData { min_clocks: diff_stamp, min_page_faults: diff_page_faults, ..counted }
    } else if diff_stamp > data.max_clocks {
        RepetitionTestData { max_clocks: diff_stamp, max_page_faults: diff_page_faults, ..counted }
    } else {
        counted
    }
}

/// The running count after that run: it starts over at a new minimum.
pub open spec fn running_after(
    data: RepetitionTestData,
    running: RunningCount,
    diff_stamp: u64,
) -> RunningCount {
    if diff_stamp < data.min_clocks {
        RunningCount { iterations: 0, clocks: 0 }
    } else {
        RunningCount {
            iterations: (running.iterations + 1) as u64,
            clocks: (running.clocks + diff_stamp) as u64,
        }
    }
}

impl RepetitionTestData {
    /// The statistics before the first run.
    pub fn new() -> (r: RepetitionTestData)
        ensures
            r == (RepetitionTestData {
                iterations: 0,
                total_clocks: 0,
                total_page_faults: 0,
                min_clocks: u64::MAX,
                min_page_faults: u32::MAX,
                max_clocks: 0,
                max_page_faults: 0,
            }),
    {
        RepetitionTestData {
            iterations: 0,
            total_clocks: 0,
            total_page_faults: 0,
            min_clocks: u64::MAX,
            min_page_faults: u32::MAX,
            max_clocks: 0,
            max_page_faults: 0,
        }
    }

    /// Counts one more run.
    pub fn record(&mut self, running: &mut RunningCount, diff_stamp: u64, diff_page_faults: u32)
        requires
            old(self).iterations < u64::MAX,
            old(self).total_clocks + diff_stamp <= u64::MAX,
            old(self).total_page_faults + diff_page_faults <= u64::MAX,
            old(running).iterations < u64::MAX,
            old(running).clocks + diff_stamp <= u64::MAX,
        ensures
            *final(self) == data_after(*old(self), diff_stamp, diff_page_faults),
            *final(running) == running_after(*old(self), *old(running), diff_stamp),
    {
        self.iterations = self.iterations + 1;
        self.total_clocks = self.total_clocks + diff_stamp;
        self.total_page_faults = self.total_page_faults + diff_page_faults as u64;
        running.iterations = running.iterations + 1;
        running.clocks = running.clocks + diff_stamp;
        if diff_stamp < self.min_clocks {
            self.min_clocks = diff_stamp;
            self.min_page_faults = diff_page_faults;
            running.clocks = 0;
            running.iterations = 0;
        } else if diff_stamp > self.max_clocks {
            self.max_clocks = diff_stamp;
            self.max_page_faults = diff_page_faults;
        }
    }
}

impl RunningCount {
    /// The count before the first run.
    pub fn new() -> (r: RunningCount)
        ensures
            r == (RunningCount { iterations: 0, clocks: 0 }),
    {
        RunningCount { iterations: 0, clocks: 0 }
    }

    /// The best time has stood for at least `max_iterations` runs that took
    /// at least `max_clocks` together.
    pub fn is_over(&self, max_iterations: u64, max_clocks: u64) -> (r: bool)
        ensures
            r == (self.iterations >= max_iterations && self.clocks >= max_clocks),
    {
        self.iterations >= max_iterations && self.clocks >= max_clocks
    }
}

} // verus!
