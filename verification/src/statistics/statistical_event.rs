//! Events which typing emits for the statistics, and what each of them carries.
use vstd::prelude::*;

use super::statistics_counter::sat_add;
use crate::chunk::key_stroke_candidate::KeyStrokeElementCount;
use crate::chunk::ChunkSpell;
use crate::key_stroke::KeyStrokeChar;
use crate::primitives::Duration;
use crate::utility::{calc_ceil_div, spec_ceil_div};

verus! {

/// The cursor position in the spell of a chunk being typed.
#[derive(Debug, Clone, Copy, PartialEq, Eq, Structural, Hash)]
pub enum ChunkSpellCursorPosition {
    /// On the first and only character of the spell.
    Single,
    /// On the first of two characters.
    DoubleFirst,
    /// On the second of two characters.
    DoubleSecond,
    /// On both characters, typed at once.
    DoubleCombined,
}

impl ChunkSpellCursorPosition {
    /// Whether the cursor is on two characters.
    pub fn is_cursor_count_double(&self) -> (r: bool)
        ensures
            r == (*self is DoubleCombined),
    {
        matches!(self, ChunkSpellCursorPosition::DoubleCombined)
    }

    /// The cursor positions in the whole spell, for a chunk beginning at `offset`.
    pub fn into_absolute_cursor_position(self, offset: usize) -> (r: Vec<usize>)
        requires
            offset < usize::MAX,
        ensures
            self is Single || self is DoubleFirst ==> r@ == seq![offset],
            self is DoubleSecond ==> r@ == seq![(offset + 1) as usize],
            self is DoubleCombined ==> r@ == seq![offset, (offset + 1) as usize],
    {
        let mut r: Vec<usize> = Vec::new();
        match self {
            ChunkSpellCursorPosition::Single | ChunkSpellCursorPosition::DoubleFirst => r.push(offset),
            ChunkSpellCursorPosition::DoubleSecond => r.push(offset + 1),
            ChunkSpellCursorPosition::DoubleCombined => {
                r.push(offset);
                r.push(offset + 1);
            },
        }
        r
    }
}

/// A chunk was confirmed.
#[derive(Debug, Clone, PartialEq, Eq, Hash)]
pub struct ChunkConfirmedContext {
    ideal_key_stroke_count: usize,
    wrong_key_stroke_count_of_key_stroke_index: Vec<usize>,
}

/// The ideal key stroke index which the key stroke at `i` of `key_stroke_count` corresponds
/// to, for `ideal` ideal key strokes.
pub open spec fn ideal_index_of(ideal: int, key_stroke_count: int, i: int) -> int {
    spec_ceil_div(ideal * (i + 1), key_stroke_count) - 1
}

/// The wrong key stroke counts of the first key strokes, added up by the ideal key stroke
/// indexes they correspond to, saturating at `usize::MAX`.
pub open spec fn ideal_sums(counts: Seq<usize>, ideal: int, key_stroke_count: int) -> Seq<int>
    decreases counts.len(),
{
    if counts.len() == 0 {
        Seq::new(ideal as nat, |j: int| 0int)
    } else {
        let prev = ideal_sums(counts.drop_last(), ideal, key_stroke_count);
        let j = ideal_index_of(ideal, key_stroke_count, counts.len() - 1);
        prev.update(j, sat_add(prev[j], counts.last() as int))
    }
}

impl ChunkConfirmedContext {
    pub closed spec fn spec_ideal_key_stroke_count(self) -> int {
        self.ideal_key_stroke_count as int
    }

    pub closed spec fn spec_wrong_counts(self) -> Seq<usize> {
        self.wrong_key_stroke_count_of_key_stroke_index@
    }

    /// The ideal key strokes and the wrong key strokes per key stroke are few enough to scale
    /// positions, and a chunk typed with key strokes has ideal key strokes.
    pub open spec fn wf(self) -> bool {
        &&& 0 < self.spec_ideal_key_stroke_count()
    }

    pub fn new(ideal_key_stroke_count: usize, wrong_key_stroke_count_of_key_stroke_index: Vec<usize>) -> (r: Self)
        ensures
            r.spec_ideal_key_stroke_count() == ideal_key_stroke_count,
            r.spec_wrong_counts() == wrong_key_stroke_count_of_key_stroke_index@,
    {
        ChunkConfirmedContext { ideal_key_stroke_count, wrong_key_stroke_count_of_key_stroke_index }
    }

    /// Returns the number of ideal key strokes of the chunk.
    pub fn ideal_key_stroke_count(&self) -> (r: usize)
        ensures
            r == self.spec_ideal_key_stroke_count(),
    {
        self.ideal_key_stroke_count
    }

    /// Returns the number of key strokes whose wrong key strokes are counted.
    pub fn wrong_count_len(&self) -> (r: usize)
        ensures
            r == self.spec_wrong_counts().len(),
    {
        self.wrong_key_stroke_count_of_key_stroke_index.len()
    }

    /// Returns whether the chunk was typed without a wrong key stroke.
    pub fn completely_correct(&self) -> (r: bool)
        ensures
            r == forall|i: int| 0 <= i < self.spec_wrong_counts().len() ==> self.spec_wrong_counts()[i] == 0,
    {
        let mut i: usize = 0;
        while i < self.wrong_key_stroke_count_of_key_stroke_index.len()
            invariant
                i <= self.spec_wrong_counts().len(),
                forall|k: int| 0 <= k < i ==> self.spec_wrong_counts()[k] == 0,
            decreases self.spec_wrong_counts().len() - i,
        {
            if self.wrong_key_stroke_count_of_key_stroke_index[i] != 0 {
                return false;
            }
            i = i + 1;
        }
        true
    }

    /// Returns the wrong key stroke counts gathered by ideal key stroke: the key stroke at
    /// `i` of `n` counts for the ideal key stroke `ceil(ideal * (i + 1) / n) - 1`.
    pub fn wrong_key_stroke_count_of_ideal_key_stroke_index(&self) -> (r: Vec<usize>)
        requires
            self.wf(),
        ensures
            r@.len() == self.spec_ideal_key_stroke_count(),
            forall|j: int| 0 <= j < r@.len() ==> r@[j] == ideal_sums(
                self.spec_wrong_counts(),
                self.spec_ideal_key_stroke_count(),
                self.spec_wrong_counts().len() as int,
            )[j],
    {
        let ideal = self.ideal_key_stroke_count;
        let counts = &self.wrong_key_stroke_count_of_key_stroke_index;
        let n = counts.len();
        let mut r: Vec<usize> = Vec::new();
        let mut k: usize = 0;
        while k < ideal
            invariant
                k <= ideal,
                r@.len() == k,
                forall|j: int| 0 <= j < k ==> r@[j] == 0,
            decreases ideal - k,
        {
            r.push(0);
            k = k + 1;
        }
        let ghost c = counts@;
        let mut i: usize = 0;
        while i < n
            invariant
                ideal == self.spec_ideal_key_stroke_count(),
                0 < ideal,
                n == c.len(),
                c == self.spec_wrong_counts(),
                counts@ == c,
                i <= n,
                r@.len() == ideal,
                forall|j: int| 0 <= j < r@.len() ==> r@[j] == ideal_sums(c.take(i as int), ideal as int, n as int)[j],
            decreases n - i,
        {
            proof {
                assert(c.take(i + 1).drop_last() == c.take(i as int));
                lemma_ideal_index_in_range(ideal as int, n as int, i as int);
                assert((ideal as int) * (i + 1) + (n - 1) <= u128::MAX) by (nonlinear_arith)
                    requires
                        ideal <= usize::MAX,
                        i + 1 <= usize::MAX,
                        n <= usize::MAX,
                        usize::MAX <= u64::MAX,
                ;
            }
            let wide_ideal = ideal as u128;
            let wide_i = i as u128;
            let wide_n = n as u128;
            let numerator = wide_ideal * (wide_i + 1) + (wide_n - 1);
            let q = numerator / wide_n;
            proof {
                assert(q == spec_ceil_div(ideal * (i + 1), n as int));
            }
            let j = (q - 1) as usize;
            proof {
                assert(j == ideal_index_of(ideal as int, n as int, i as int));
                lemma_ideal_sums_len(c.take(i as int), ideal as int, n as int);
            }
            let old_value = r[j];
            let new_value = old_value.saturating_add(counts[i]);
            let ghost before = r@;
            r.set(j, new_value);
            proof {
                assert(c.take(i + 1).last() == c[i as int]);
                assert(new_value == sat_add(old_value as int, c[i as int] as int));
                let prev = ideal_sums(c.take(i as int), ideal as int, n as int);
                assert(ideal_sums(c.take(i + 1), ideal as int, n as int) == prev.update(j as int, sat_add(prev[j as int], c[i as int] as int)));
                assert forall|x: int| 0 <= x < r@.len() implies r@[x] == ideal_sums(c.take(i + 1), ideal as int, n as int)[x] by {
                    if x != j {
                        assert(r@[x] == before[x]);
                    }
                }
            }
            i = i + 1;
        }
        proof {
            assert(c.take(n as int) == c);
            lemma_ideal_sums_len(c, ideal as int, n as int);
        }
        r
    }
}

/// Gathering wrong counts keeps one entry per ideal key stroke.
pub proof fn lemma_ideal_sums_len(counts: Seq<usize>, ideal: int, n: int)
    requires
        0 < ideal,
        counts.len() <= n,
    ensures
        ideal_sums(counts, ideal, n).len() == ideal,
    decreases counts.len(),
{
    if counts.len() > 0 {
        lemma_ideal_sums_len(counts.drop_last(), ideal, n);
        lemma_ideal_index_in_range(ideal, n, counts.len() - 1);
    }
}

/// The ideal key stroke index of a key stroke is an index of the ideal key strokes.
pub proof fn lemma_ideal_index_in_range(ideal: int, n: int, i: int)
    requires
        0 < ideal,
        0 <= i < n,
    ensures
        0 <= ideal_index_of(ideal, n, i) < ideal,
{
    assert((ideal * (i + 1) + (n - 1)) / n >= 1 && (ideal * (i + 1) + (n - 1)) / n <= ideal) by (nonlinear_arith)
        requires
            0 < ideal,
            0 <= i < n,
    ;
}

/// A chunk was added to the chunks to type.
#[derive(Debug, Clone, PartialEq, Eq, Hash)]
pub struct ChunkAddedContext {
    spell: ChunkSpell,
    ideal_key_stroke_element_count: KeyStrokeElementCount,
}

impl ChunkAddedContext {
    pub closed spec fn spec_spell(self) -> ChunkSpell {
        self.spell
    }

    pub closed spec fn spec_ideal_count(self) -> KeyStrokeElementCount {
        self.ideal_key_stroke_element_count
    }

    pub fn new(spell: ChunkSpell, ideal_key_stroke_element_count: KeyStrokeElementCount) -> (r: Self)
        ensures
            r.spec_spell() == spell,
            r.spec_ideal_count() == ideal_key_stroke_element_count,
    {
        ChunkAddedContext { spell, ideal_key_stroke_element_count }
    }

    /// Returns the spell of the chunk.
    pub fn spell(&self) -> (r: &ChunkSpell)
        ensures
            *r == self.spec_spell(),
    {
        &self.spell
    }

    /// Returns the number of spell characters of the chunk.
    pub fn spell_count(&self) -> (r: usize)
        ensures
            r == self.spec_spell().spec_count(),
    {
        self.spell.count()
    }

    /// Returns the ideal key stroke counts of the chunk.
    pub fn ideal_key_stroke_element_count(&self) -> (r: KeyStrokeElementCount)
        ensures
            r == self.spec_ideal_count(),
    {
        self.ideal_key_stroke_element_count
    }
}

/// A spell element was finished, or is deemed finished for a snapshot.
#[derive(Debug, Clone, PartialEq, Eq, Hash)]
pub struct SpellFinishedContext {
    spell: ChunkSpell,
    wrong_key_stroke_count: usize,
}

impl SpellFinishedContext {
    pub closed spec fn spec_spell(self) -> ChunkSpell {
        self.spell
    }

    pub closed spec fn spec_wrong_count(self) -> int {
        self.wrong_key_stroke_count as int
    }

    pub fn new(spell: ChunkSpell, wrong_key_stroke_count: usize) -> (r: Self)
        ensures
            r.spec_spell() == spell,
            r.spec_wrong_count() == wrong_key_stroke_count,
    {
        SpellFinishedContext { spell, wrong_key_stroke_count }
    }

    /// Returns the finished spell.
    pub fn spell(&self) -> (r: &ChunkSpell)
        ensures
            *r == self.spec_spell(),
    {
        &self.spell
    }

    /// Returns the number of wrong key strokes typed for the spell.
    pub fn wrong_key_stroke_count(&self) -> (r: usize)
        ensures
            r == self.spec_wrong_count(),
    {
        self.wrong_key_stroke_count
    }
}

/// A correct key stroke was typed.
#[derive(Debug, Clone, PartialEq, Eq, Hash)]
pub struct KeyStrokeCorrectContext {
    key_stroke: KeyStrokeChar,
    required_time: Duration,
    wrong_key_strokes: Vec<KeyStrokeChar>,
}

impl KeyStrokeCorrectContext {
    pub closed spec fn spec_key_stroke(self) -> KeyStrokeChar {
        self.key_stroke
    }

    pub closed spec fn spec_required_time(self) -> Duration {
        self.required_time
    }

    pub closed spec fn spec_wrong_key_strokes(self) -> Seq<KeyStrokeChar> {
        self.wrong_key_strokes@
    }

    pub fn new(key_stroke: KeyStrokeChar, required_time: Duration, wrong_key_strokes: Vec<KeyStrokeChar>) -> (r: Self)
        ensures
            r.spec_key_stroke() == key_stroke,
            r.spec_required_time() == required_time,
            r.spec_wrong_key_strokes() == wrong_key_strokes@,
    {
        KeyStrokeCorrectContext { key_stroke, required_time, wrong_key_strokes }
    }

    /// Returns the correct key stroke.
    pub fn key_stroke(&self) -> (r: KeyStrokeChar)
        ensures
            r == self.spec_key_stroke(),
    {
        self.key_stroke
    }

    /// Returns the time from the previous correct key stroke to this one.
    pub fn required_time(&self) -> (r: Duration)
        ensures
            r == self.spec_required_time(),
    {
        self.required_time
    }

    /// Returns the wrong key strokes typed before this correct one.
    pub fn wrong_key_strokes(&self) -> (r: &Vec<KeyStrokeChar>)
        ensures
            r@ == self.spec_wrong_key_strokes(),
    {
        &self.wrong_key_strokes
    }
}

/// A key stroke still to type, reported by a snapshot.
#[derive(Debug, Clone, PartialEq, Eq, Hash)]
pub struct KeyStrokeSnapshottedContext {
    key_stroke: KeyStrokeChar,
    wrong_key_strokes: Option<Vec<KeyStrokeChar>>,
}

impl KeyStrokeSnapshottedContext {
    pub closed spec fn spec_key_stroke(self) -> KeyStrokeChar {
        self.key_stroke
    }

    pub closed spec fn spec_wrong_key_strokes(self) -> Option<Seq<KeyStrokeChar>> {
        match self.wrong_key_strokes {
            Some(v) => Some(v@),
            None => None,
        }
    }

    /// A key stroke whose typing has not started.
    pub fn new_unstarted(key_stroke: &KeyStrokeChar) -> (r: Self)
        ensures
            r.spec_key_stroke() == *key_stroke,
            r.spec_wrong_key_strokes() is None,
    {
        KeyStrokeSnapshottedContext { key_stroke: *key_stroke, wrong_key_strokes: None }
    }

    /// A key stroke whose typing has started, with the wrong key strokes typed for it.
    pub fn new_started(key_stroke: &KeyStrokeChar, wrong_key_strokes: Vec<KeyStrokeChar>) -> (r: Self)
        ensures
            r.spec_key_stroke() == *key_stroke,
            r.spec_wrong_key_strokes() == Some(wrong_key_strokes@),
    {
        KeyStrokeSnapshottedContext { key_stroke: *key_stroke, wrong_key_strokes: Some(wrong_key_strokes) }
    }

    /// Returns the key stroke.
    pub fn key_stroke(&self) -> (r: KeyStrokeChar)
        ensures
            r == self.spec_key_stroke(),
    {
        self.key_stroke
    }

    /// Returns the wrong key strokes typed for it, if its typing has started.
    pub fn wrong_key_strokes(&self) -> (r: &Option<Vec<KeyStrokeChar>>)
        ensures
            r is Some == self.spec_wrong_key_strokes() is Some,
            r matches Some(v) ==> v@ == self.spec_wrong_key_strokes()->0,
    {
        &self.wrong_key_strokes
    }
}

/// The spell of the chunk being typed, reported by a snapshot.
#[derive(Debug, Clone, PartialEq, Eq, Hash)]
pub struct InflightSpellSnapshottedContext {
    spell: ChunkSpell,
    chunk_spell_cursor_position: ChunkSpellCursorPosition,
    wrong_key_strokes: Vec<KeyStrokeChar>,
}

impl InflightSpellSnapshottedContext {
    pub closed spec fn spec_spell(self) -> ChunkSpell {
        self.spell
    }

    pub closed spec fn spec_cursor(self) -> ChunkSpellCursorPosition {
        self.chunk_spell_cursor_position
    }

    pub closed spec fn spec_wrong_key_strokes(self) -> Seq<KeyStrokeChar> {
        self.wrong_key_strokes@
    }

    pub fn new(spell: ChunkSpell, chunk_spell_cursor_position: ChunkSpellCursorPosition, wrong_key_strokes: Vec<KeyStrokeChar>) -> (r: Self)
        ensures
            r.spec_spell() == spell,
            r.spec_cursor() == chunk_spell_cursor_position,
            r.spec_wrong_key_strokes() == wrong_key_strokes@,
    {
        InflightSpellSnapshottedContext { spell, chunk_spell_cursor_position, wrong_key_strokes }
    }

    /// Returns the spell being typed.
    pub fn spell(&self) -> (r: &ChunkSpell)
        ensures
            *r == self.spec_spell(),
    {
        &self.spell
    }

    /// Returns the cursor position in the spell.
    pub fn chunk_spell_cursor_position(&self) -> (r: ChunkSpellCursorPosition)
        ensures
            r == self.spec_cursor(),
    {
        self.chunk_spell_cursor_position
    }

    /// Returns the wrong key strokes typed for the spell at the cursor.
    pub fn wrong_key_strokes(&self) -> (r: &Vec<KeyStrokeChar>)
        ensures
            r@ == self.spec_wrong_key_strokes(),
    {
        &self.wrong_key_strokes
    }
}

/// An ideal key stroke is deemed finished for a snapshot.
#[derive(Debug, Clone, Copy, PartialEq, Eq, Structural, Hash)]
pub struct IdealKeyStrokeDeemedFinishedContext {
    wrong_key_stroke_count: usize,
}

impl IdealKeyStrokeDeemedFinishedContext {
    pub closed spec fn spec_wrong_count(self) -> int {
        self.wrong_key_stroke_count as int
    }

    pub fn new(wrong_key_stroke_count: usize) -> (r: Self)
        ensures
            r.spec_wrong_count() == wrong_key_stroke_count,
    {
        IdealKeyStrokeDeemedFinishedContext { wrong_key_stroke_count }
    }

    /// Returns the number of wrong key strokes typed for the ideal key stroke.
    pub fn wrong_key_stroke_count(&self) -> (r: usize)
        ensures
            r == self.spec_wrong_count(),
    {
        self.wrong_key_stroke_count
    }
}

/// An event for the statistics.
#[derive(Debug, Clone, PartialEq, Eq, Hash)]
pub enum StatisticalEvent {
    KeyStrokeCorrect(KeyStrokeCorrectContext),
    SpellFinished(SpellFinishedContext),
    SpellDeemedFinished(SpellFinishedContext),
    ChunkAdded(ChunkAddedContext),
    ChunkConfirmed(ChunkConfirmedContext),
    KeyStrokeSnapshotted(KeyStrokeSnapshottedContext),
    InflightSpellSnapshotted(InflightSpellSnapshottedContext),
    IdealKeyStrokeDeemedFinished(IdealKeyStrokeDeemedFinishedContext),
}

} // verus!
