//! Consumers of statistical events: the counters of the whole session and the strings shown
//! while typing.
use vstd::prelude::*;

use super::statistical_event::{ideal_sums, ChunkSpellCursorPosition, StatisticalEvent};
use super::statistics_counter::{sat_add, EntitySummaryStatistics, PrimitiveStatisticsCounter};
use super::result::TypingResultSummary;
use crate::chunk::ChunkSpell;
use crate::text::chars_to_string;

verus! {

/// The counters of a typing session, one per kind of target.
#[derive(Debug, Clone, Copy, PartialEq, Eq, Hash)]
pub struct StatisticsManager {
    key_stroke: PrimitiveStatisticsCounter,
    ideal_key_stroke: PrimitiveStatisticsCounter,
    spell: PrimitiveStatisticsCounter,
    chunk: PrimitiveStatisticsCounter,
}

/// Every count of the counter is zero.
pub open spec fn is_zero(a: PrimitiveStatisticsCounter) -> bool {
    &&& a.spec_finished() == 0
    &&& a.spec_whole() == 0
    &&& a.spec_completely_correct() == 0
    &&& a.spec_wrong() == 0
}

/// The product `a * b`, saturating at `usize::MAX`.
pub open spec fn sat_mul(a: int, b: int) -> int {
    if a * b > usize::MAX {
        usize::MAX as int
    } else {
        a * b
    }
}

/// Returns `a * b`, saturating at `usize::MAX`.
fn saturating_product(a: usize, b: usize) -> (r: usize)
    ensures
        r == sat_mul(a as int, b as int),
{
    match a.checked_mul(b) {
        Some(p) => p,
        None => usize::MAX,
    }
}

/// Every count of the counter is the same as in `o`.
pub open spec fn same_counts(a: PrimitiveStatisticsCounter, o: PrimitiveStatisticsCounter) -> bool {
    &&& a.spec_finished() == o.spec_finished()
    &&& a.spec_whole() == o.spec_whole()
    &&& a.spec_completely_correct() == o.spec_completely_correct()
    &&& a.spec_wrong() == o.spec_wrong()
}

/// The counter `a` is `o` with `w` more targets, `f` more finished ones of which `c` were
/// completely correct, and `x` more misses, each count saturating.
pub open spec fn counts_added(a: PrimitiveStatisticsCounter, o: PrimitiveStatisticsCounter, w: int, f: int, c: int, x: int) -> bool {
    &&& a.spec_whole() == sat_add(o.spec_whole(), w)
    &&& a.spec_finished() == sat_add(o.spec_finished(), f)
    &&& a.spec_completely_correct() == sat_add(o.spec_completely_correct(), c)
    &&& a.spec_wrong() == sat_add(o.spec_wrong(), x)
}

/// The number of zeros of `s`.
pub open spec fn zero_count(s: Seq<int>) -> int
    decreases s.len(),
{
    if s.len() == 0 {
        0
    } else {
        zero_count(s.drop_last()) + if s.last() == 0 {
            1int
        } else {
            0
        }
    }
}

/// The zeros of `s` are at most as many as its elements.
proof fn lemma_zero_count_bounds(s: Seq<int>)
    ensures
        0 <= zero_count(s) <= s.len(),
    decreases s.len(),
{
    if s.len() > 0 {
        lemma_zero_count_bounds(s.drop_last());
    }
}

/// No count of `a` is below that of `o`.
pub open spec fn counts_grow(a: PrimitiveStatisticsCounter, o: PrimitiveStatisticsCounter) -> bool {
    &&& a.spec_finished() >= o.spec_finished()
    &&& a.spec_whole() >= o.spec_whole()
    &&& a.spec_completely_correct() >= o.spec_completely_correct()
    &&& a.spec_wrong() >= o.spec_wrong()
}

/// No count of any kind of target of `a` is below that of `o`.
pub open spec fn statistics_grow(a: StatisticsManager, o: StatisticsManager) -> bool {
    &&& counts_grow(a.spec_key_stroke(), o.spec_key_stroke())
    &&& counts_grow(a.spec_ideal_key_stroke(), o.spec_ideal_key_stroke())
    &&& counts_grow(a.spec_spell(), o.spec_spell())
    &&& counts_grow(a.spec_chunk(), o.spec_chunk())
}

impl StatisticsManager {
    pub closed spec fn spec_key_stroke(self) -> PrimitiveStatisticsCounter {
        self.key_stroke
    }

    pub closed spec fn spec_ideal_key_stroke(self) -> PrimitiveStatisticsCounter {
        self.ideal_key_stroke
    }

    pub closed spec fn spec_spell(self) -> PrimitiveStatisticsCounter {
        self.spell
    }

    pub closed spec fn spec_chunk(self) -> PrimitiveStatisticsCounter {
        self.chunk
    }

    /// A manager whose counters are all zero.
    /// Of every kind of target, no more are completely correct than finished.
    pub open spec fn correct_within_finished(self) -> bool {
        &&& self.spec_key_stroke().spec_completely_correct() <= self.spec_key_stroke().spec_finished()
        &&& self.spec_ideal_key_stroke().spec_completely_correct() <= self.spec_ideal_key_stroke().spec_finished()
        &&& self.spec_spell().spec_completely_correct() <= self.spec_spell().spec_finished()
        &&& self.spec_chunk().spec_completely_correct() <= self.spec_chunk().spec_finished()
    }

    pub fn new() -> (r: Self)
        ensures
            r.correct_within_finished(),
            is_zero(r.spec_key_stroke()),
            is_zero(r.spec_ideal_key_stroke()),
            is_zero(r.spec_spell()),
            is_zero(r.spec_chunk()),
    {
        StatisticsManager {
            key_stroke: PrimitiveStatisticsCounter::empty_counter(),
            ideal_key_stroke: PrimitiveStatisticsCounter::empty_counter(),
            spell: PrimitiveStatisticsCounter::empty_counter(),
            chunk: PrimitiveStatisticsCounter::empty_counter(),
        }
    }

    /// Returns the counter of key strokes.
    pub fn key_stroke_statistics_counter(&self) -> (r: &PrimitiveStatisticsCounter)
        ensures
            *r == self.spec_key_stroke(),
    {
        &self.key_stroke
    }

    /// Returns the counter of ideal key strokes.
    pub fn ideal_key_stroke_statistics_counter(&self) -> (r: &PrimitiveStatisticsCounter)
        ensures
            *r == self.spec_ideal_key_stroke(),
    {
        &self.ideal_key_stroke
    }

    /// Returns the counter of spell characters.
    pub fn spell_statistics_counter(&self) -> (r: &PrimitiveStatisticsCounter)
        ensures
            *r == self.spec_spell(),
    {
        &self.spell
    }

    /// Returns the counter of chunks.
    pub fn chunk_statistics_counter(&self) -> (r: &PrimitiveStatisticsCounter)
        ensures
            *r == self.spec_chunk(),
    {
        &self.chunk
    }

    /// Updates the counters with an event:
    /// - a correct key stroke is a finished key stroke target, completely correct without
    ///   wrong key strokes; its wrong key strokes count as misses of key strokes, ideal key
    ///   strokes and chunks;
    /// - a finished (or deemed finished) spell of `n` characters with `w` wrong key strokes
    ///   finishes `n` spell targets, completely correct when `w` is zero, and counts `n * w`
    ///   misses;
    /// - a confirmed chunk finishes a chunk, completely correct without wrong key strokes, and
    ///   finishes each of its ideal key strokes, completely correct when no wrong key stroke
    ///   counts for it;
    /// - an added chunk adds a chunk, its spell characters and its ideal key strokes;
    /// - a snapshotted key stroke adds a key stroke target, and counts the wrong key strokes
    ///   typed for it as misses of key strokes and ideal key strokes;
    /// - a snapshotted inflight spell of `n` characters with `w` wrong key strokes counts
    ///   `n * w` spell misses;
    /// - an ideal key stroke deemed finished finishes an ideal key stroke.
    pub fn consume_event(&mut self, event: &StatisticalEvent)
        ensures
            statistics_grow(*final(self), *old(self)),
            old(self).correct_within_finished() ==> final(self).correct_within_finished(),
            match *event {
                StatisticalEvent::KeyStrokeCorrect(c) => {
                    let w = c.spec_wrong_key_strokes().len() as int;
                    &&& counts_added(final(self).spec_key_stroke(), old(self).spec_key_stroke(), 1, 1, if w == 0 { 1 } else { 0 }, w)
                    &&& counts_added(final(self).spec_ideal_key_stroke(), old(self).spec_ideal_key_stroke(), 0, 0, 0, w)
                    &&& counts_added(final(self).spec_chunk(), old(self).spec_chunk(), 0, 0, 0, w)
                    &&& same_counts(final(self).spec_spell(), old(self).spec_spell())
                },
                StatisticalEvent::SpellFinished(c) | StatisticalEvent::SpellDeemedFinished(c) => {
                    let n = c.spec_spell().spec_count();
                    let w = c.spec_wrong_count();
                    &&& counts_added(final(self).spec_spell(), old(self).spec_spell(), 0, n, if w == 0 { n } else { 0 }, sat_mul(n, w))
                    &&& same_counts(final(self).spec_key_stroke(), old(self).spec_key_stroke())
                    &&& same_counts(final(self).spec_ideal_key_stroke(), old(self).spec_ideal_key_stroke())
                    &&& same_counts(final(self).spec_chunk(), old(self).spec_chunk())
                },
                StatisticalEvent::ChunkAdded(c) => {
                    &&& counts_added(final(self).spec_chunk(), old(self).spec_chunk(), 1, 0, 0, 0)
                    &&& counts_added(final(self).spec_spell(), old(self).spec_spell(), c.spec_spell().spec_count(), 0, 0, 0)
                    &&& c.spec_ideal_count().spec_whole_count() <= usize::MAX ==> counts_added(final(self).spec_ideal_key_stroke(), old(self).spec_ideal_key_stroke(), c.spec_ideal_count().spec_whole_count(), 0, 0, 0)
                    &&& c.spec_ideal_count().spec_whole_count() > usize::MAX ==> counts_added(final(self).spec_ideal_key_stroke(), old(self).spec_ideal_key_stroke(), usize::MAX as int, 0, 0, 0)
                    &&& same_counts(final(self).spec_key_stroke(), old(self).spec_key_stroke())
                },
                StatisticalEvent::ChunkConfirmed(c) => {
                    let correct = forall|i: int| 0 <= i < c.spec_wrong_counts().len() ==> c.spec_wrong_counts()[i] == 0;
                    &&& counts_added(final(self).spec_chunk(), old(self).spec_chunk(), 0, 1, if correct { 1 } else { 0 }, 0)
                    &&& same_counts(final(self).spec_key_stroke(), old(self).spec_key_stroke())
                    &&& same_counts(final(self).spec_spell(), old(self).spec_spell())
                    &&& final(self).spec_ideal_key_stroke().spec_whole() == old(self).spec_ideal_key_stroke().spec_whole()
                    &&& final(self).spec_ideal_key_stroke().spec_wrong() == old(self).spec_ideal_key_stroke().spec_wrong()
                    &&& c.wf() ==> {
                        let sums = ideal_sums(c.spec_wrong_counts(), c.spec_ideal_key_stroke_count(), c.spec_wrong_counts().len() as int);
                        &&& final(self).spec_ideal_key_stroke().spec_finished() == sat_add(
                            old(self).spec_ideal_key_stroke().spec_finished(),
                            c.spec_ideal_key_stroke_count(),
                        )
                        &&& final(self).spec_ideal_key_stroke().spec_completely_correct() == sat_add(
                            old(self).spec_ideal_key_stroke().spec_completely_correct(),
                            zero_count(sums),
                        )
                    }
                    &&& !c.wf() ==> same_counts(final(self).spec_ideal_key_stroke(), old(self).spec_ideal_key_stroke())
                },
                StatisticalEvent::KeyStrokeSnapshotted(c) => {
                    let w = match c.spec_wrong_key_strokes() {
                        Some(v) => v.len() as int,
                        None => 0,
                    };
                    &&& counts_added(final(self).spec_key_stroke(), old(self).spec_key_stroke(), 1, 0, 0, w)
                    &&& counts_added(final(self).spec_ideal_key_stroke(), old(self).spec_ideal_key_stroke(), 0, 0, 0, w)
                    &&& same_counts(final(self).spec_spell(), old(self).spec_spell())
                    &&& same_counts(final(self).spec_chunk(), old(self).spec_chunk())
                },
                StatisticalEvent::InflightSpellSnapshotted(c) => {
                    let n = c.spec_spell().spec_count();
                    let w = c.spec_wrong_key_strokes().len() as int;
                    &&& counts_added(final(self).spec_spell(), old(self).spec_spell(), 0, 0, 0, sat_mul(n, w))
                    &&& same_counts(final(self).spec_key_stroke(), old(self).spec_key_stroke())
                    &&& same_counts(final(self).spec_ideal_key_stroke(), old(self).spec_ideal_key_stroke())
                    &&& same_counts(final(self).spec_chunk(), old(self).spec_chunk())
                },
                StatisticalEvent::IdealKeyStrokeDeemedFinished(c) => {
                    &&& counts_added(final(self).spec_ideal_key_stroke(), old(self).spec_ideal_key_stroke(), 0, 1, if c.spec_wrong_count() == 0 { 1 } else { 0 }, 0)
                    &&& same_counts(final(self).spec_key_stroke(), old(self).spec_key_stroke())
                    &&& same_counts(final(self).spec_spell(), old(self).spec_spell())
                    &&& same_counts(final(self).spec_chunk(), old(self).spec_chunk())
                },
            },
    {
        proof {
            self.key_stroke.lemma_counts_bounded();
            self.ideal_key_stroke.lemma_counts_bounded();
            self.spell.lemma_counts_bounded();
            self.chunk.lemma_counts_bounded();
        }
        match event {
            StatisticalEvent::KeyStrokeCorrect(c) => {
                let w = c.wrong_key_strokes().len();
                self.key_stroke.on_target_add(1);
                proof {
                    self.key_stroke.lemma_counts_bounded();
                }
                self.key_stroke.on_finished(1, w == 0);
                proof {
                    self.key_stroke.lemma_counts_bounded();
                }
                self.key_stroke.on_wrong(w);
                self.ideal_key_stroke.on_wrong(w);
                self.chunk.on_wrong(w);
            },
            StatisticalEvent::SpellFinished(c) | StatisticalEvent::SpellDeemedFinished(c) => {
                let n = c.spell().count();
                let w = c.wrong_key_stroke_count();
                let product = saturating_product(n, w);
                self.spell.on_wrong(product);
                self.spell.on_finished(n, w == 0);
            },
            StatisticalEvent::ChunkConfirmed(c) => {
                self.chunk.on_finished(1, c.completely_correct());
                let ideal = c.ideal_key_stroke_count();
                if 0 < ideal {
                    let counts = c.wrong_key_stroke_count_of_ideal_key_stroke_index();
                    let ghost after_chunk = *self;
                    let ghost sums = ideal_sums(c.spec_wrong_counts(), c.spec_ideal_key_stroke_count(), c.spec_wrong_counts().len() as int);
                    proof {
                        after_chunk.spec_ideal_key_stroke().lemma_counts_bounded();
                        crate::statistics::statistical_event::lemma_ideal_sums_len(c.spec_wrong_counts(), c.spec_ideal_key_stroke_count(), c.spec_wrong_counts().len() as int);
                    }
                    let mut i: usize = 0;
                    while i < counts.len()
                        invariant
                            i <= counts@.len(),
                            counts@.len() == sums.len(),
                            forall|j: int| 0 <= j < counts@.len() ==> counts@[j] == sums[j],
                            0 <= after_chunk.spec_ideal_key_stroke().spec_finished() <= usize::MAX,
                            0 <= after_chunk.spec_ideal_key_stroke().spec_completely_correct() <= usize::MAX,
                            self.spec_key_stroke() == after_chunk.spec_key_stroke(),
                            self.spec_spell() == after_chunk.spec_spell(),
                            self.spec_chunk() == after_chunk.spec_chunk(),
                            self.spec_ideal_key_stroke().spec_whole() == after_chunk.spec_ideal_key_stroke().spec_whole(),
                            self.spec_ideal_key_stroke().spec_wrong() == after_chunk.spec_ideal_key_stroke().spec_wrong(),
                            self.spec_ideal_key_stroke().spec_finished() == sat_add(after_chunk.spec_ideal_key_stroke().spec_finished(), i as int),
                            self.spec_ideal_key_stroke().spec_completely_correct() == sat_add(
                                after_chunk.spec_ideal_key_stroke().spec_completely_correct(),
                                zero_count(sums.take(i as int)),
                            ),
                        decreases counts@.len() - i,
                    {
                        proof {
                            assert(sums.take(i + 1).drop_last() == sums.take(i as int));
                            lemma_zero_count_bounds(sums.take(i as int));
                        }
                        self.ideal_key_stroke.on_finished(1, counts[i] == 0);
                        i = i + 1;
                    }
                    proof {
                        assert(sums.take(sums.len() as int) == sums);
                        lemma_zero_count_bounds(sums);
                    }
                }
            },
            StatisticalEvent::ChunkAdded(c) => {
                self.chunk.on_target_add(1);
                self.spell.on_target_add(c.spell_count());
                let count = c.ideal_key_stroke_element_count();
                match count.checked_whole_count() {
                    Some(n) => self.ideal_key_stroke.on_target_add(n),
                    None => self.ideal_key_stroke.on_target_add(usize::MAX),
                }
            },
            StatisticalEvent::KeyStrokeSnapshotted(c) => {
                match c.wrong_key_strokes() {
                    Some(v) => {
                        let w = v.len();
                        self.key_stroke.on_wrong(w);
                        self.ideal_key_stroke.on_wrong(w);
                    },
                    None => {},
                }
                self.key_stroke.on_target_add(1);
            },
            StatisticalEvent::InflightSpellSnapshotted(c) => {
                let n = c.spell().count();
                let w = c.wrong_key_strokes().len();
                let product = saturating_product(n, w);
                self.spell.on_wrong(product);
            },
            StatisticalEvent::IdealKeyStrokeDeemedFinished(c) => {
                self.ideal_key_stroke.on_finished(1, c.wrong_key_stroke_count() == 0);
            },
        }
    }
}

impl StatisticsManager {
    /// The counts of every kind of target of `r` are those of this manager.
    pub open spec fn reports(self, r: TypingResultSummary) -> bool {
        &&& r.spec_key_stroke().spec_whole() == self.spec_key_stroke().spec_whole()
        &&& r.spec_key_stroke().spec_finished() == self.spec_key_stroke().spec_finished()
        &&& r.spec_key_stroke().spec_completely_correct() == self.spec_key_stroke().spec_completely_correct()
        &&& r.spec_key_stroke().spec_wrong() == self.spec_key_stroke().spec_wrong()
        &&& r.spec_ideal_key_stroke().spec_whole() == self.spec_ideal_key_stroke().spec_whole()
        &&& r.spec_ideal_key_stroke().spec_finished() == self.spec_ideal_key_stroke().spec_finished()
        &&& r.spec_ideal_key_stroke().spec_completely_correct() == self.spec_ideal_key_stroke().spec_completely_correct()
        &&& r.spec_ideal_key_stroke().spec_wrong() == self.spec_ideal_key_stroke().spec_wrong()
        &&& r.spec_spell().spec_whole() == self.spec_spell().spec_whole()
        &&& r.spec_spell().spec_finished() == self.spec_spell().spec_finished()
        &&& r.spec_spell().spec_completely_correct() == self.spec_spell().spec_completely_correct()
        &&& r.spec_spell().spec_wrong() == self.spec_spell().spec_wrong()
        &&& r.spec_chunk().spec_whole() == self.spec_chunk().spec_whole()
        &&& r.spec_chunk().spec_finished() == self.spec_chunk().spec_finished()
        &&& r.spec_chunk().spec_completely_correct() == self.spec_chunk().spec_completely_correct()
        &&& r.spec_chunk().spec_wrong() == self.spec_chunk().spec_wrong()
    }

    /// Returns the counts of every kind of target.
    pub fn construct_typing_result_summary(&self) -> (r: TypingResultSummary)
        ensures
            self.reports(r),
    {
        TypingResultSummary::new(
            EntitySummaryStatistics::from_counter(&self.key_stroke),
            EntitySummaryStatistics::from_counter(&self.ideal_key_stroke),
            EntitySummaryStatistics::from_counter(&self.spell),
            EntitySummaryStatistics::from_counter(&self.chunk),
        )
    }
}

} // verus!
