//! The clock of a source of test data: batches of rising times whose step
//! swings between 1 and 20.

use vstd::prelude::*;
use crate::Time;

verus! {

/// The number of points in a batch.
pub const GEN_POINTS: u32 = 200;

/// The widest step from one point to the next.
pub const GEN_T_INTERVAL: u32 = 20;

/// Gives out the times of dummy test data, batch by batch. Within a batch
/// the times rise by a fixed step; from batch to batch the step shrinks by
/// one until it is 1, then grows by one until it is `GEN_T_INTERVAL`, and so on.
#[derive(Debug)]
pub struct TestDataGenerator {
    curr_t: u32,
    interval: u32,
    interval_inc: bool,
}

impl TestDataGenerator {
    /// The time of the next point.
    pub closed spec fn curr_t(&self) -> u32 {
        self.curr_t
    }

    /// The step from one point of the next batch to the next.
    pub closed spec fn interval(&self) -> u32 {
        self.interval
    }

    /// Whether the step is growing.
    pub closed spec fn interval_inc(&self) -> bool {
        self.interval_inc
    }

    /// The step lies between 1 and `GEN_T_INTERVAL`, and has room to move on
    /// in its direction.
    pub open spec fn wf(&self) -> bool {
        if self.interval_inc() {
            1 <= self.interval() < GEN_T_INTERVAL
        } else {
            1 < self.interval() <= GEN_T_INTERVAL
        }
    }

    /// The step of the batch after one with step `interval`.
    pub open spec fn next_interval(interval: u32, inc: bool) -> u32 {
        if inc {
            (interval + 1) as u32
        } else {
            (interval - 1) as u32
        }
    }

    /// Whether the step grows after a batch with step `interval`: it turns
    /// round at 1 and at `GEN_T_INTERVAL`.
    pub open spec fn next_inc(interval: u32, inc: bool) -> bool {
        if inc {
            interval + 1 != GEN_T_INTERVAL
        } else {
            interval - 1 == 1
        }
    }

    /// Construct a new instance: the first point has time 1, the first step
    /// is `GEN_T_INTERVAL` and shrinks.
    pub fn new() -> (g: TestDataGenerator)
        ensures
            g.wf(),
            g.curr_t() == 1,
            g.interval() == GEN_T_INTERVAL,
            !g.interval_inc(),
    {
        TestDataGenerator { curr_t: 1, interval: GEN_T_INTERVAL, interval_inc: false }
    }

    /// Whether the times of one more batch fit below the end of time.
    pub fn can_generate(&self) -> (b: bool)
        ensures
            b == (self.curr_t() + GEN_POINTS * self.interval() <= u32::MAX),
    {
        let span: u64 = crate::view::product(GEN_POINTS, self.interval);
        self.curr_t as u64 + span <= u32::MAX as u64
    }

    /// The times of the next batch: `GEN_POINTS` times that start at
    /// `curr_t()` and rise by `interval()`.
    pub fn gen_times(&mut self) -> (ts: Vec<Time>)
        requires
            old(self).wf(),
            old(self).curr_t() + GEN_POINTS * old(self).interval() <= u32::MAX,
        ensures
            final(self).wf(),
            ts@.len() == GEN_POINTS,
            forall|i: int|
                0 <= i < GEN_POINTS ==> #[trigger] ts@[i] == old(self).curr_t() + i * old(
                    self,
                ).interval(),
            final(self).curr_t() == old(self).curr_t() + GEN_POINTS * old(self).interval(),
            final(self).interval() == Self::next_interval(
                old(self).interval(),
                old(self).interval_inc(),
            ),
            final(self).interval_inc() == Self::next_inc(
                old(self).interval(),
                old(self).interval_inc(),
            ),
    {
        let mut ts: Vec<Time> = Vec::with_capacity(GEN_POINTS as usize);
        let mut i: u32 = 0;
        while i < GEN_POINTS
            invariant
                i <= GEN_POINTS,
                self.interval == old(self).interval,
                self.interval_inc == old(self).interval_inc,
                self.interval <= GEN_T_INTERVAL,
                old(self).curr_t + GEN_POINTS * old(self).interval <= u32::MAX,
                self.curr_t == old(self).curr_t + i * self.interval,
                ts@.len() == i,
                forall|j: int|
                    0 <= j < i ==> #[trigger] ts@[j] == old(self).curr_t + j * old(self).interval,
            decreases GEN_POINTS - i,
        {
            ts.push(self.curr_t);
            assert((i + 1) * self.interval <= GEN_POINTS * self.interval) by (nonlinear_arith)
                requires
                    i < GEN_POINTS,
                    self.interval >= 0,
            ;
            assert((i + 1) * self.interval == i * self.interval + self.interval)
                by (nonlinear_arith);
            self.curr_t += self.interval;
            i += 1;
        }
        let switch = if self.interval_inc {
            self.interval += 1;
            self.interval == GEN_T_INTERVAL
        } else {
            self.interval -= 1;
            self.interval == 1
        };
        if switch {
            self.interval_inc = !self.interval_inc;
        }
        ts
    }
}

} // verus!
