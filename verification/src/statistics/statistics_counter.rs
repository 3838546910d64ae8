//! Counters of typing targets: how many there are, how many are finished, how many were
//! finished without a miss, and how many misses there were.
use vstd::prelude::*;

verus! {

/// `a + b`, saturating at `usize::MAX`.
pub open spec fn sat_add(a: int, b: int) -> int {
    if a + b > usize::MAX {
        usize::MAX as int
    } else {
        a + b
    }
}

/// Counts of one kind of typing target. Every count saturates at `usize::MAX`.
#[derive(Debug, Clone, Copy, PartialEq, Eq, Structural, Hash)]
pub struct PrimitiveStatisticsCounter {
    finished_count: usize,
    whole_count: usize,
    completely_correct_count: usize,
    wrong_count: usize,
}

impl PrimitiveStatisticsCounter {
    pub closed spec fn spec_finished(self) -> int {
        self.finished_count as int
    }

    pub closed spec fn spec_whole(self) -> int {
        self.whole_count as int
    }

    pub closed spec fn spec_completely_correct(self) -> int {
        self.completely_correct_count as int
    }

    pub closed spec fn spec_wrong(self) -> int {
        self.wrong_count as int
    }

    /// Every count fits in a `usize`.
    pub proof fn lemma_counts_bounded(self)
        ensures
            0 <= self.spec_finished() <= usize::MAX,
            0 <= self.spec_whole() <= usize::MAX,
            0 <= self.spec_completely_correct() <= usize::MAX,
            0 <= self.spec_wrong() <= usize::MAX,
    {
    }

    pub fn new(finished_count: usize, whole_count: usize, completely_correct_count: usize, wrong_count: usize) -> (r: Self)
        ensures
            r.spec_finished() == finished_count,
            r.spec_whole() == whole_count,
            r.spec_completely_correct() == completely_correct_count,
            r.spec_wrong() == wrong_count,
    {
        PrimitiveStatisticsCounter { finished_count, whole_count, completely_correct_count, wrong_count }
    }

    /// A counter with every count zero.
    pub fn empty_counter() -> (r: Self)
        ensures
            r.spec_finished() == 0,
            r.spec_whole() == 0,
            r.spec_completely_correct() == 0,
            r.spec_wrong() == 0,
    {
        Self::new(0, 0, 0, 0)
    }

    pub fn finished_count(&self) -> (r: usize)
        ensures
            r == self.spec_finished(),
    {
        self.finished_count
    }

    pub fn whole_count(&self) -> (r: usize)
        ensures
            r == self.spec_whole(),
    {
        self.whole_count
    }

    pub fn completely_correct_count(&self) -> (r: usize)
        ensures
            r == self.spec_completely_correct(),
    {
        self.completely_correct_count
    }

    pub fn wrong_count(&self) -> (r: usize)
        ensures
            r == self.spec_wrong(),
    {
        self.wrong_count
    }

    /// Counts `delta` more targets.
    pub fn on_target_add(&mut self, delta: usize)
        ensures
            final(self).spec_whole() == sat_add(old(self).spec_whole(), delta as int),
            final(self).spec_finished() == old(self).spec_finished(),
            final(self).spec_completely_correct() == old(self).spec_completely_correct(),
            final(self).spec_wrong() == old(self).spec_wrong(),
    {
        self.whole_count = self.whole_count.saturating_add(delta);
    }

    /// Counts `delta` more finished targets, and as many completely correct ones if they
    /// were finished without a miss.
    pub fn on_finished(&mut self, delta: usize, completely_correct: bool)
        ensures
            final(self).spec_finished() == sat_add(old(self).spec_finished(), delta as int),
            final(self).spec_completely_correct() == if completely_correct {
                sat_add(old(self).spec_completely_correct(), delta as int)
            } else {
                old(self).spec_completely_correct()
            },
            final(self).spec_whole() == old(self).spec_whole(),
            final(self).spec_wrong() == old(self).spec_wrong(),
    {
        self.finished_count = self.finished_count.saturating_add(delta);
        if completely_correct {
            self.completely_correct_count = self.completely_correct_count.saturating_add(delta);
        }
    }

    /// Counts `delta` more misses.
    pub fn on_wrong(&mut self, delta: usize)
        ensures
            final(self).spec_wrong() == sat_add(old(self).spec_wrong(), delta as int),
            final(self).spec_finished() == old(self).spec_finished(),
            final(self).spec_whole() == old(self).spec_whole(),
            final(self).spec_completely_correct() == old(self).spec_completely_correct(),
    {
        self.wrong_count = self.wrong_count.saturating_add(delta);
    }
}

/// Summary statistics of one kind of typing target, for display.
#[derive(Debug, Clone, Copy, PartialEq, Eq, Structural, Hash)]
pub struct EntitySummaryStatistics {
    whole_count: usize,
    finished_count: usize,
    completely_correct_count: usize,
    wrong_count: usize,
}

impl EntitySummaryStatistics {
    pub closed spec fn spec_whole(self) -> int {
        self.whole_count as int
    }

    pub closed spec fn spec_finished(self) -> int {
        self.finished_count as int
    }

    pub closed spec fn spec_completely_correct(self) -> int {
        self.completely_correct_count as int
    }

    pub closed spec fn spec_wrong(self) -> int {
        self.wrong_count as int
    }

    pub fn new(whole_count: usize, finished_count: usize, completely_correct_count: usize, wrong_count: usize) -> (r: Self)
        ensures
            r.spec_whole() == whole_count,
            r.spec_finished() == finished_count,
            r.spec_completely_correct() == completely_correct_count,
            r.spec_wrong() == wrong_count,
    {
        EntitySummaryStatistics { whole_count, finished_count, completely_correct_count, wrong_count }
    }

    /// Returns the number of targets.
    pub fn whole_count(&self) -> (r: usize)
        ensures
            r == self.spec_whole(),
    {
        self.whole_count
    }

    /// Returns the number of finished targets.
    pub fn finished_count(&self) -> (r: usize)
        ensures
            r == self.spec_finished(),
    {
        self.finished_count
    }

    /// Returns the number of targets finished without a miss.
    pub fn completely_correct_count(&self) -> (r: usize)
        ensures
            r == self.spec_completely_correct(),
    {
        self.completely_correct_count
    }

    /// Returns the number of misses; several misses on one target count separately.
    pub fn wrong_count(&self) -> (r: usize)
        ensures
            r == self.spec_wrong(),
    {
        self.wrong_count
    }

    /// The summary of a counter.
    pub fn from_counter(value: &PrimitiveStatisticsCounter) -> (r: Self)
        ensures
            r.spec_whole() == value.spec_whole(),
            r.spec_finished() == value.spec_finished(),
            r.spec_completely_correct() == value.spec_completely_correct(),
            r.spec_wrong() == value.spec_wrong(),
    {
        EntitySummaryStatistics {
            whole_count: value.whole_count(),
            finished_count: value.finished_count(),
            completely_correct_count: value.completely_correct_count(),
            wrong_count: value.wrong_count(),
        }
    }

    /// The summary of two sets of targets together: every count is the sum of the two,
    /// saturating at `usize::MAX`.
    pub fn combined(self, rhs: Self) -> (r: Self)
        ensures
            r.spec_whole() == sat_add(self.spec_whole(), rhs.spec_whole()),
            r.spec_finished() == sat_add(self.spec_finished(), rhs.spec_finished()),
            r.spec_completely_correct() == sat_add(self.spec_completely_correct(), rhs.spec_completely_correct()),
            r.spec_wrong() == sat_add(self.spec_wrong(), rhs.spec_wrong()),
    {
        EntitySummaryStatistics {
            whole_count: self.whole_count.saturating_add(rhs.whole_count),
            finished_count: self.finished_count.saturating_add(rhs.finished_count),
            completely_correct_count: self.completely_correct_count.saturating_add(rhs.completely_correct_count),
            wrong_count: self.wrong_count.saturating_add(rhs.wrong_count),
        }
    }
}

} // verus!
