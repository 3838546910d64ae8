//! The result of a typing session.
use vstd::prelude::*;

use super::skill_statistics::SkillStatistics;
use super::statistics_counter::{sat_add, EntitySummaryStatistics};
use crate::primitives::Duration;

verus! {

/// The counts of a typing session for every kind of target.
#[derive(Debug, Clone, Copy, PartialEq, Eq, Hash)]
pub struct TypingResultSummary {
    key_stroke: EntitySummaryStatistics,
    ideal_key_stroke: EntitySummaryStatistics,
    spell: EntitySummaryStatistics,
    chunk: EntitySummaryStatistics,
}

/// Every count of `r` is the sum of those of `a` and `b`, saturating.
pub open spec fn summaries_added(r: EntitySummaryStatistics, a: EntitySummaryStatistics, b: EntitySummaryStatistics) -> bool {
    &&& r.spec_whole() == sat_add(a.spec_whole(), b.spec_whole())
    &&& r.spec_finished() == sat_add(a.spec_finished(), b.spec_finished())
    &&& r.spec_completely_correct() == sat_add(a.spec_completely_correct(), b.spec_completely_correct())
    &&& r.spec_wrong() == sat_add(a.spec_wrong(), b.spec_wrong())
}

impl TypingResultSummary {
    pub closed spec fn spec_key_stroke(self) -> EntitySummaryStatistics {
        self.key_stroke
    }

    pub closed spec fn spec_ideal_key_stroke(self) -> EntitySummaryStatistics {
        self.ideal_key_stroke
    }

    pub closed spec fn spec_spell(self) -> EntitySummaryStatistics {
        self.spell
    }

    pub closed spec fn spec_chunk(self) -> EntitySummaryStatistics {
        self.chunk
    }

    pub fn new(
        key_stroke: EntitySummaryStatistics,
        ideal_key_stroke: EntitySummaryStatistics,
        spell: EntitySummaryStatistics,
        chunk: EntitySummaryStatistics,
    ) -> (r: Self)
        ensures
            r.spec_key_stroke() == key_stroke,
            r.spec_ideal_key_stroke() == ideal_key_stroke,
            r.spec_spell() == spell,
            r.spec_chunk() == chunk,
    {
        TypingResultSummary { key_stroke, ideal_key_stroke, spell, chunk }
    }

    /// Returns the counts of key strokes.
    pub fn key_stroke(&self) -> (r: &EntitySummaryStatistics)
        ensures
            *r == self.spec_key_stroke(),
    {
        &self.key_stroke
    }

    /// Returns the counts of ideal key strokes.
    pub fn ideal_key_stroke(&self) -> (r: &EntitySummaryStatistics)
        ensures
            *r == self.spec_ideal_key_stroke(),
    {
        &self.ideal_key_stroke
    }

    /// Returns the counts of spells.
    pub fn spell(&self) -> (r: &EntitySummaryStatistics)
        ensures
            *r == self.spec_spell(),
    {
        &self.spell
    }

    /// Returns the counts of chunks.
    pub fn chunk(&self) -> (r: &EntitySummaryStatistics)
        ensures
            *r == self.spec_chunk(),
    {
        &self.chunk
    }

    /// The counts of two sessions together: every count is added, saturating.
    pub fn combined(self, rhs: Self) -> (r: Self)
        ensures
            summaries_added(r.spec_key_stroke(), self.spec_key_stroke(), rhs.spec_key_stroke()),
            summaries_added(r.spec_ideal_key_stroke(), self.spec_ideal_key_stroke(), rhs.spec_ideal_key_stroke()),
            summaries_added(r.spec_spell(), self.spec_spell(), rhs.spec_spell()),
            summaries_added(r.spec_chunk(), self.spec_chunk(), rhs.spec_chunk()),
    {
        TypingResultSummary {
            key_stroke: self.key_stroke.combined(rhs.key_stroke),
            ideal_key_stroke: self.ideal_key_stroke.combined(rhs.ideal_key_stroke),
            spell: self.spell.combined(rhs.spell),
            chunk: self.chunk.combined(rhs.chunk),
        }
    }
}

/// The result of a typing session: how long it took, its counts and the skill statistics of
/// the keys typed.
#[derive(Debug, Clone, PartialEq, Eq, Hash)]
pub struct TypingResult {
    total_time: Duration,
    summary: TypingResultSummary,
    skill_statistics: SkillStatistics,
}

impl TypingResult {
    pub closed spec fn spec_total_time(self) -> Duration {
        self.total_time
    }

    pub closed spec fn spec_summary(self) -> TypingResultSummary {
        self.summary
    }

    pub closed spec fn spec_skill_statistics(self) -> SkillStatistics {
        self.skill_statistics
    }

    pub fn new(total_time: Duration, summary: TypingResultSummary, skill_statistics: SkillStatistics) -> (r: Self)
        ensures
            r.spec_total_time() == total_time,
            r.spec_summary() == summary,
            r.spec_skill_statistics() == skill_statistics,
    {
        TypingResult { total_time, summary, skill_statistics }
    }

    /// Returns how long the session took.
    pub fn total_time(&self) -> (r: Duration)
        ensures
            r == self.spec_total_time(),
    {
        self.total_time
    }

    /// Returns the counts of the session.
    pub fn summary(&self) -> (r: &TypingResultSummary)
        ensures
            *r == self.spec_summary(),
    {
        &self.summary
    }

    /// Returns the skill statistics of the keys typed.
    pub fn skill_statistics(&self) -> (r: &SkillStatistics)
        ensures
            *r == self.spec_skill_statistics(),
    {
        &self.skill_statistics
    }

    /// The result of two sessions together: times and counts are added (saturating) and the
    /// skill statistics are combined.
    pub fn combined(self, rhs: Self) -> (r: Self)
        ensures
            r.spec_total_time() == self.spec_total_time().spec_saturating_add(rhs.spec_total_time()),
            summaries_added(r.spec_summary().spec_key_stroke(), self.spec_summary().spec_key_stroke(), rhs.spec_summary().spec_key_stroke()),
            summaries_added(r.spec_summary().spec_ideal_key_stroke(), self.spec_summary().spec_ideal_key_stroke(), rhs.spec_summary().spec_ideal_key_stroke()),
            summaries_added(r.spec_summary().spec_spell(), self.spec_summary().spec_spell(), rhs.spec_summary().spec_spell()),
            summaries_added(r.spec_summary().spec_chunk(), self.spec_summary().spec_chunk(), rhs.spec_summary().spec_chunk()),
    {
        TypingResult {
            total_time: self.total_time.saturating_add(&rhs.total_time),
            summary: self.summary.combined(rhs.summary),
            skill_statistics: self.skill_statistics.combined(rhs.skill_statistics),
        }
    }
}

/// Adding the counts of two sessions does not depend on their order: both sums have the same
/// counts.
pub proof fn lemma_summaries_added_commute(
    r1: EntitySummaryStatistics,
    r2: EntitySummaryStatistics,
    a: EntitySummaryStatistics,
    b: EntitySummaryStatistics,
)
    requires
        summaries_added(r1, a, b),
        summaries_added(r2, b, a),
    ensures
        r1.spec_whole() == r2.spec_whole(),
        r1.spec_finished() == r2.spec_finished(),
        r1.spec_completely_correct() == r2.spec_completely_correct(),
        r1.spec_wrong() == r2.spec_wrong(),
{
}

} // verus!
