//! The bookkeeping of a profiler of nested blocks.
//!
//! The profiler holds one anchor per place in the program that is timed.
//! Opening a block makes it the current scope; closing it adds the time that
//! passed to its anchor and takes it off the exclusive time of the scope
//! that was current before. The profiler reads no clock: every operation
//! takes the reading of the clock as a number.

use vstd::prelude::*;

verus! {

/// The number of anchors of a profiler.
pub const PROFILE_CAPACITY: usize = 4096;

/// The times of one place in the program.
#[derive(Clone, Copy, Debug)]
pub struct ProfileAnchor {
    pub tag: &'static str,
    pub elapsed_exclusive: u64,
    pub elapsed_inclusive: u64,
    pub invocations: u64,
}

/// An open block: what closing it needs to know.
#[derive(Clone, Copy, Debug)]
pub struct ProfileBlock {
    pub tag: &'static str,
    pub creation_stamp: u64,
    pub old_elapsed_inclusive: u64,
    pub parent_index: usize,
    pub profile_index: usize,
}

/// The profiler as a value.
pub struct ProfilerState {
    pub profiles: Seq<ProfileAnchor>,
    pub creation_stamp: u64,
    pub teardown_start_stamp: u64,
    pub scope: usize,
    pub counter: usize,
}

/// What the end of a run gives for the report.
#[derive(Clone, Copy, Debug, PartialEq, Eq, Structural)]
pub struct ProfileTotals {
    /// The clocks from the start of the profiler to its end.
    pub total_clocks: u64,
    /// The clocks of these that passed inside some block.
    pub clocks_profiled: u64,
}

/// An anchor that was never used.
pub open spec fn unused_anchor() -> ProfileAnchor {
    ProfileAnchor { tag: "", elapsed_exclusive: 0, elapsed_inclusive: 0, invocations: 0 }
}

/// The anchors after `block` was closed at `now`.
///
/// The time that passed is taken off the exclusive time of the parent and
/// added to that of the block's own anchor, both wrapping; the inclusive
/// time of the anchor is what it was when the block was opened and the time
/// that passed.
pub open spec fn anchors_after_close(
    profiles: Seq<ProfileAnchor>,
    block: ProfileBlock,
    now: u64,
) -> Seq<ProfileAnchor> {
    let elapsed = (now - block.creation_stamp) as u64;
    let parent = profiles[block.parent_index as int];
    let charged = profiles.update(
        block.parent_index as int,
        ProfileAnchor {
            tag: parent.tag,
            elapsed_exclusive: parent.elapsed_exclusive.wrapping_sub(elapsed),
            elapsed_inclusive: parent.elapsed_inclusive,
            invocations: parent.invocations,
        },
    );
    let own = charged[block.profile_index as int];
    charged.update(
        block.profile_index as int,
        ProfileAnchor {
            tag: block.tag,
            elapsed_exclusive: own.elapsed_exclusive.wrapping_add(elapsed),
            elapsed_inclusive: (block.old_elapsed_inclusive + elapsed) as u64,
            invocations: (own.invocations + 1) as u64,
        },
    )
}

/// `block` can be closed at `now`: its indices are anchors, the clock has
/// not run backwards, and the sums fit.
pub open spec fn can_close(profiles: Seq<ProfileAnchor>, block: ProfileBlock, now: u64) -> bool {
    &&& block.parent_index < profiles.len()
    &&& block.profile_index < profiles.len()
    &&& block.creation_stamp <= now
    &&& block.old_elapsed_inclusive + (now - block.creation_stamp) <= u64::MAX
    &&& profiles[block.profile_index as int].invocations < u64::MAX
}

/// The block that stands for the teardown of the program.
pub open spec fn teardown_block(state: ProfilerState) -> ProfileBlock {
    ProfileBlock {
        tag: "app teardown",
        creation_stamp: state.teardown_start_stamp,
        old_elapsed_inclusive: 0,
        parent_index: 0,
        profile_index: (state.counter + 1) as usize,
    }
}

/// The times of all anchors of one run of a program.
pub struct Profiler {
    profiles: Vec<ProfileAnchor>,
    creation_stamp: u64,
    teardown_start_stamp: u64,
    scope: usize,
    counter: usize,
}

impl View for Profiler {
    type V = ProfilerState;

    closed spec fn view(&self) -> ProfilerState {
        ProfilerState {
            profiles: self.profiles@,
            creation_stamp: self.creation_stamp,
            teardown_start_stamp: self.teardown_start_stamp,
            scope: self.scope,
            counter: self.counter,
        }
    }
}

impl ProfilerState {
    /// There are `PROFILE_CAPACITY` anchors and the scope is one of them.
    pub open spec fn wf(self) -> bool {
        &&& self.profiles.len() == PROFILE_CAPACITY
        &&& self.scope < PROFILE_CAPACITY
    }
}

impl Profiler {
    /// A profiler of which no anchor was used, with the first anchor as scope.
    pub fn new() -> (r: Profiler)
        ensures
            r@.wf(),
            r@.profiles == Seq::new(PROFILE_CAPACITY as nat, |i: int| unused_anchor()),
            r@.creation_stamp == 0,
            r@.teardown_start_stamp == 0,
            r@.scope == 0,
            r@.counter == 0,
    {
        let mut profiles: Vec<ProfileAnchor> = Vec::new();
        let mut i: usize = 0;
        while i < PROFILE_CAPACITY
            invariant
                i <= PROFILE_CAPACITY,
                profiles@ == Seq::new(i as nat, |j: int| unused_anchor()),
            decreases PROFILE_CAPACITY - i,
        {
            profiles.push(
                ProfileAnchor { tag: "", elapsed_exclusive: 0, elapsed_inclusive: 0, invocations: 0 },
            );
            i += 1;
            assert(profiles@ =~= Seq::new(i as nat, |j: int| unused_anchor()));
        }
        Profiler { profiles, creation_stamp: 0, teardown_start_stamp: 0, scope: 0, counter: 0 }
    }

    /// Starts the run at `now` and names the first anchor, which stands for
    /// the whole program.
    pub fn init(&mut self, now: u64)
        requires
            old(self)@.wf(),
        ensures
            final(self)@.wf(),
            final(self)@ == (ProfilerState {
                creation_stamp: now,
                profiles: old(self)@.profiles.update(
                    0,
                    ProfileAnchor { tag: "Application", ..old(self)@.profiles[0] },
                ),
                ..old(self)@
            }),
    {
        let first = self.profiles[0];
        self.creation_stamp = now;
        self.profiles.set(
            0,
            ProfileAnchor {
                tag: "Application",
                elapsed_exclusive: first.elapsed_exclusive,
                elapsed_inclusive: first.elapsed_inclusive,
                invocations: first.invocations,
            },
        );
    }

    /// Notes that the teardown of the program started at `now`.
    pub fn time_teardown(&mut self, now: u64)
        ensures
            final(self)@ == (ProfilerState { teardown_start_stamp: now, ..old(self)@ }),
    {
        self.teardown_start_stamp = now;
    }

    /// The next number for a place in the program. The numbers start at 1;
    /// 0 stands for the whole program.
    pub fn next_index(&mut self) -> (r: usize)
        requires
            old(self)@.counter < usize::MAX,
        ensures
            r == old(self)@.counter + 1,
            final(self)@ == (ProfilerState { counter: r, ..old(self)@ }),
    {
        self.counter = self.counter + 1;
        self.counter
    }

    /// The anchor of the place `index`.
    pub fn anchor(&self, index: usize) -> (r: ProfileAnchor)
        requires
            self@.wf(),
            index < PROFILE_CAPACITY,
        ensures
            r == self@.profiles[index as int],
    {
        self.profiles[index]
    }

    /// The reading of the clock at which the run started.
    pub fn creation_stamp(&self) -> (r: u64)
        ensures
            r == self@.creation_stamp,
    {
        self.creation_stamp
    }

    /// The reading of the clock at which the teardown started; 0 where it
    /// was not noted.
    pub fn teardown_start_stamp(&self) -> (r: u64)
        ensures
            r == self@.teardown_start_stamp,
    {
        self.teardown_start_stamp
    }

    /// The number that was given out last.
    pub fn counter(&self) -> (r: usize)
        ensures
            r == self@.counter,
    {
        self.counter
    }

    /// The scope that is current.
    pub fn scope(&self) -> (r: usize)
        ensures
            r == self@.scope,
    {
        self.scope
    }

    /// Closes `block` at `now`: its parent is the scope again, and the
    /// anchors are those of `anchors_after_close`.
    pub fn close(&mut self, block: &ProfileBlock, now: u64)
        requires
            old(self)@.wf(),
            can_close(old(self)@.profiles, *block, now),
        ensures
            final(self)@.wf(),
            final(self)@ == (ProfilerState {
                scope: block.parent_index,
                profiles: anchors_after_close(old(self)@.profiles, *block, now),
                ..old(self)@
            }),
    {
        let elapsed: u64 = now - block.creation_stamp;
        let parent = self.profiles[block.parent_index];
        self.profiles.set(
            block.parent_index,
            ProfileAnchor {
                tag: parent.tag,
                elapsed_exclusive: parent.elapsed_exclusive.wrapping_sub(elapsed),
                elapsed_inclusive: parent.elapsed_inclusive,
                invocations: parent.invocations,
            },
        );
        let own = self.profiles[block.profile_index];
        self.profiles.set(
            block.profile_index,
            ProfileAnchor {
                tag: block.tag,
                elapsed_exclusive: own.elapsed_exclusive.wrapping_add(elapsed),
                elapsed_inclusive: block.old_elapsed_inclusive + elapsed,
                invocations: own.invocations + 1,
            },
        );
        self.scope = block.parent_index;
    }

    /// Closes, at `now`, the block that stands for the teardown of the
    /// program, where the start of the teardown was noted: it takes the next
    /// number as its place, and the whole program is its parent. Says
    /// whether there was such a block.
    pub fn close_teardown(&mut self, now: u64) -> (recorded: bool)
        requires
            old(self)@.wf(),
            old(self)@.teardown_start_stamp > 0 ==> old(self)@.counter + 1 < PROFILE_CAPACITY
                && can_close(old(self)@.profiles, teardown_block(old(self)@), now),
        ensures
            final(self)@.wf(),
            recorded == (old(self)@.teardown_start_stamp > 0),
            recorded ==> final(self)@ == (ProfilerState {
                counter: (old(self)@.counter + 1) as usize,
                scope: 0,
                profiles: anchors_after_close(
                    old(self)@.profiles,
                    teardown_block(old(self)@),
                    now,
                ),
                ..old(self)@
            }),
            !recorded ==> final(self)@ == old(self)@,
    {
        if self.teardown_start_stamp > 0 {
            let creation_stamp = self.teardown_start_stamp;
            let profile_index = self.next_index();
            let block = ProfileBlock {
                tag: "app teardown",
                creation_stamp,
                old_elapsed_inclusive: 0,
                parent_index: 0,
                profile_index,
            };
            self.close(&block, now);
            true
        } else {
            false
        }
    }

    /// Ends the run at `end_stamp`: the first anchor gets the clocks of the
    /// whole run, and the totals for the report come back.
    pub fn finish(&mut self, end_stamp: u64) -> (totals: ProfileTotals)
        requires
            old(self)@.wf(),
            old(self)@.creation_stamp <= end_stamp,
            old(self)@.profiles[0].elapsed_exclusive.wrapping_add(
                (end_stamp - old(self)@.creation_stamp) as u64,
            ) <= end_stamp - old(self)@.creation_stamp,
        ensures
            final(self)@.wf(),
            totals.total_clocks == end_stamp - old(self)@.creation_stamp,
            totals.clocks_profiled == totals.total_clocks - final(self)@.profiles[0].elapsed_exclusive,
            final(self)@ == (ProfilerState {
                profiles: old(self)@.profiles.update(
                    0,
                    ProfileAnchor {
                        elapsed_inclusive: totals.total_clocks,
                        elapsed_exclusive: old(self)@.profiles[0].elapsed_exclusive.wrapping_add(
                            totals.total_clocks,
                        ),
                        ..old(self)@.profiles[0]
                    },
                ),
                ..old(self)@
            }),
    {
        let total_clocks: u64 = end_stamp - self.creation_stamp;
        let first = self.profiles[0];
        let exclusive = first.elapsed_exclusive.wrapping_add(total_clocks);
        self.profiles.set(
            0,
            ProfileAnchor {
                tag: first.tag,
                elapsed_exclusive: exclusive,
                elapsed_inclusive: total_clocks,
                invocations: first.invocations,
            },
        );
        ProfileTotals { total_clocks, clocks_profiled: total_clocks - exclusive }
    }
}

impl ProfileBlock {
    /// Opens a block of the place `profile_index` at `now` and makes it the
    /// scope.
    pub fn new(profiler: &mut Profiler, tag: &'static str, profile_index: usize, now: u64) -> (block:
        ProfileBlock)
        requires
            old(profiler)@.wf(),
            profile_index < PROFILE_CAPACITY,
        ensures
            final(profiler)@.wf(),
            final(profiler)@ == (ProfilerState { scope: profile_index, ..old(profiler)@ }),
            block == (ProfileBlock {
                tag,
                creation_stamp: now,
                old_elapsed_inclusive: old(profiler)@.profiles[profile_index as int].elapsed_inclusive,
                parent_index: old(profiler)@.scope,
                profile_index,
            }),
    {
        let parent_index = profiler.scope();
        let old_elapsed_inclusive = profiler.anchor(profile_index).elapsed_inclusive;
        profiler.enter(profile_index);
        ProfileBlock { tag, creation_stamp: now, old_elapsed_inclusive, parent_index, profile_index }
    }
}

impl Profiler {
    fn enter(&mut self, profile_index: usize)
        requires
            profile_index < PROFILE_CAPACITY,
        ensures
            final(self)@ == (ProfilerState { scope: profile_index, ..old(self)@ }),
    {
        self.scope = profile_index;
    }
}

} // verus!
