//! The strings shown while typing: the spell and the key strokes, with the cursor and the
//! positions where wrong key strokes were typed.
use vstd::prelude::*;

use super::statistical_event::{ChunkSpellCursorPosition, StatisticalEvent};
use super::statistics_counter::sat_add;
use crate::chunk::ChunkSpell;
use crate::text::chars_to_string;

verus! {

/// The cursor position in the spell string: on one character or on two.
#[derive(Debug, Clone, Copy, PartialEq, Eq, Structural, Hash)]
pub enum SpellCursorPosition {
    Single(usize),
    Double(usize, usize),
}

impl SpellCursorPosition {
    /// Returns the positions of the cursor.
    pub fn construct_vec(&self) -> (r: Vec<usize>)
        ensures
            *self matches SpellCursorPosition::Single(i) ==> r@ == seq![i],
            *self matches SpellCursorPosition::Double(i, j) ==> r@ == seq![i, j],
    {
        match self {
            SpellCursorPosition::Single(i) => vec![*i],
            SpellCursorPosition::Double(i, j) => vec![*i, *j],
        }
    }
}

/// The spell string being shown.
#[derive(Debug, Clone, PartialEq, Eq, Hash)]
pub struct SpellDisplayStringBuilder {
    spell: Vec<char>,
    cursor_positions: Option<SpellCursorPosition>,
    wrong_positions: Vec<usize>,
    current_head_position: usize,
}

impl SpellDisplayStringBuilder {
    pub closed spec fn spec_spell(self) -> Seq<char> {
        self.spell@
    }

    pub closed spec fn spec_cursor(self) -> Option<SpellCursorPosition> {
        self.cursor_positions
    }

    pub closed spec fn spec_wrong(self) -> Seq<usize> {
        self.wrong_positions@
    }

    pub closed spec fn spec_head(self) -> int {
        self.current_head_position as int
    }

    /// The positions of the cursor; past the last spell character when none is set.
    pub open spec fn spec_cursor_positions(self) -> Seq<usize> {
        match self.spec_cursor() {
            Some(SpellCursorPosition::Single(i)) => seq![i],
            Some(SpellCursorPosition::Double(i, j)) => seq![i, j],
            None => seq![(self.spec_last_position() + 1) as usize],
        }
    }

    /// The position of the last spell character, 0 for an empty spell.
    pub open spec fn spec_last_position(self) -> int {
        if self.spec_spell().len() == 0 {
            0
        } else {
            self.spec_spell().len() - 1
        }
    }

    pub fn new() -> (r: Self)
        ensures
            r.spec_spell().len() == 0,
            r.spec_cursor() is None,
            r.spec_wrong().len() == 0,
            r.spec_head() == 0,
    {
        SpellDisplayStringBuilder { spell: Vec::new(), cursor_positions: None, wrong_positions: Vec::new(), current_head_position: 0 }
    }

    /// A copy of this builder.
    pub fn duplicate(&self) -> (r: Self)
        ensures
            r.spec_spell() == self.spec_spell(),
            r.spec_cursor() == self.spec_cursor(),
            r.spec_wrong() == self.spec_wrong(),
            r.spec_head() == self.spec_head(),
    {
        let spell = self.spell.clone();
        let wrong_positions = self.wrong_positions.clone();
        assert(spell@ =~= self.spell@);
        assert(wrong_positions@ =~= self.wrong_positions@);
        SpellDisplayStringBuilder {
            spell,
            cursor_positions: self.cursor_positions,
            wrong_positions,
            current_head_position: self.current_head_position,
        }
    }

    /// Returns the spell string.
    pub fn spell(&self) -> (r: String)
        ensures
            r@ == self.spec_spell(),
    {
        chars_to_string(&self.spell)
    }

    /// Returns the position of the last spell character, 0 for an empty spell.
    pub fn last_position(&self) -> (r: usize)
        ensures
            r == self.spec_last_position(),
            r < usize::MAX,
    {
        if self.spell.len() == 0 {
            0
        } else {
            self.spell.len() - 1
        }
    }

    /// Returns the cursor: the one set by a snapshot, otherwise just after the last
    /// character.
    pub fn cursor_position(&self) -> (r: SpellCursorPosition)
        ensures
            r == match self.spec_cursor() {
                Some(p) => p,
                None => SpellCursorPosition::Single((self.spec_last_position() + 1) as usize),
            },
    {
        match self.cursor_positions {
            Some(p) => p,
            None => SpellCursorPosition::Single(self.last_position() + 1),
        }
    }

    /// Returns the positions where wrong key strokes were typed.
    pub fn wrong_positions(&self) -> (r: &Vec<usize>)
        ensures
            r@ == self.spec_wrong(),
    {
        &self.wrong_positions
    }

    /// Appends the spell of a chunk.
    fn append(&mut self, spell: &ChunkSpell)
        ensures
            final(self).spec_spell() == old(self).spec_spell() + spell.spec_chars(),
            final(self).spec_cursor() == old(self).spec_cursor(),
            final(self).spec_wrong() == old(self).spec_wrong(),
            final(self).spec_head() == old(self).spec_head(),
    {
        let chars = spell.spell_string().as_chars();
        let ghost s0 = self.spec_spell();
        let mut i: usize = 0;
        while i < chars.len()
            invariant
                i <= chars@.len(),
                chars@ == spell.spec_chars(),
                self.spec_spell() == s0 + chars@.take(i as int),
                self.spec_cursor() == old(self).spec_cursor(),
                self.spec_wrong() == old(self).spec_wrong(),
                self.spec_head() == old(self).spec_head(),
            decreases chars@.len() - i,
        {
            self.spell.push(chars[i]);
            proof {
                assert(chars@.take(i + 1) == chars@.take(i as int).push(chars@[i as int]));
            }
            i = i + 1;
        }
        assert(chars@.take(i as int) == chars@);
    }

    /// Moves the head position past a finished spell of `count` characters.
    fn advance_head_position(&mut self, count: usize)
        ensures
            final(self).spec_head() == sat_add(old(self).spec_head(), count as int),
            final(self).spec_spell() == old(self).spec_spell(),
            final(self).spec_cursor() == old(self).spec_cursor(),
            final(self).spec_wrong() == old(self).spec_wrong(),
    {
        self.current_head_position = self.current_head_position.saturating_add(count);
    }

    /// Sets the cursor at the head position, on one or two characters.
    fn set_cursor_position(&mut self, position: ChunkSpellCursorPosition)
        ensures
            final(self).spec_cursor() == Some(if position is DoubleCombined {
                SpellCursorPosition::Double(old(self).spec_head() as usize, sat_add(old(self).spec_head(), 1) as usize)
            } else {
                SpellCursorPosition::Single(old(self).spec_head() as usize)
            }),
            final(self).spec_spell() == old(self).spec_spell(),
            final(self).spec_head() == old(self).spec_head(),
            final(self).spec_wrong() == old(self).spec_wrong(),
    {
        if position.is_cursor_count_double() {
            self.cursor_positions = Some(
                SpellCursorPosition::Double(self.current_head_position, self.current_head_position.saturating_add(1)),
            );
        } else {
            self.cursor_positions = Some(SpellCursorPosition::Single(self.current_head_position));
        }
    }

    /// Marks the characters of a spell at the head position as wrong.
    fn add_to_wrong_positions(&mut self, spell: &ChunkSpell)
        ensures
            final(self).spec_wrong() == old(self).spec_wrong() + if spell.spec_count() == 2 {
                seq![old(self).spec_head() as usize, sat_add(old(self).spec_head(), 1) as usize]
            } else {
                seq![old(self).spec_head() as usize]
            },
            final(self).spec_spell() == old(self).spec_spell(),
            final(self).spec_head() == old(self).spec_head(),
            final(self).spec_cursor() == old(self).spec_cursor(),
    {
        self.wrong_positions.push(self.current_head_position);
        if spell.count() == 2 {
            self.wrong_positions.push(self.current_head_position.saturating_add(1));
        }
    }
}

/// The key stroke string being shown.
#[derive(Debug, Clone, PartialEq, Eq, Hash)]
pub struct KeyStrokeDisplayStringBuilder {
    key_stroke: Vec<char>,
    cursor_position: usize,
    wrong_positions: Vec<usize>,
}

impl KeyStrokeDisplayStringBuilder {
    pub closed spec fn spec_key_stroke(self) -> Seq<char> {
        self.key_stroke@
    }

    pub closed spec fn spec_cursor(self) -> int {
        self.cursor_position as int
    }

    pub closed spec fn spec_wrong(self) -> Seq<usize> {
        self.wrong_positions@
    }

    /// The cursor and the number of key strokes fit in a `usize`.
    pub proof fn lemma_cursor_bounded(self)
        ensures
            0 <= self.spec_cursor() <= usize::MAX,
            self.spec_key_stroke().len() <= usize::MAX,
    {
        assert(self.key_stroke@.len() == self.key_stroke.len());
    }

    pub fn new() -> (r: Self)
        ensures
            r.spec_key_stroke().len() == 0,
            r.spec_cursor() == 0,
            r.spec_wrong().len() == 0,
    {
        KeyStrokeDisplayStringBuilder { key_stroke: Vec::new(), cursor_position: 0, wrong_positions: Vec::new() }
    }

    /// A copy of this builder.
    pub fn duplicate(&self) -> (r: Self)
        ensures
            r.spec_key_stroke() == self.spec_key_stroke(),
            r.spec_cursor() == self.spec_cursor(),
            r.spec_wrong() == self.spec_wrong(),
    {
        let key_stroke = self.key_stroke.clone();
        let wrong_positions = self.wrong_positions.clone();
        assert(key_stroke@ =~= self.key_stroke@);
        assert(wrong_positions@ =~= self.wrong_positions@);
        KeyStrokeDisplayStringBuilder { key_stroke, cursor_position: self.cursor_position, wrong_positions }
    }

    /// Returns the key stroke string.
    pub fn key_stroke(&self) -> (r: String)
        ensures
            r@ == self.spec_key_stroke(),
    {
        chars_to_string(&self.key_stroke)
    }

    /// Returns the cursor position.
    pub fn cursor_position(&self) -> (r: usize)
        ensures
            r == self.spec_cursor(),
    {
        self.cursor_position
    }

    /// Returns the positions where wrong key strokes were typed.
    pub fn wrong_positions(&self) -> (r: &Vec<usize>)
        ensures
            r@ == self.spec_wrong(),
    {
        &self.wrong_positions
    }
}

/// The spell and key stroke strings being shown.
#[derive(Debug, Clone, PartialEq, Eq, Hash)]
pub struct DisplayStringBuilder {
    spell: SpellDisplayStringBuilder,
    key_stroke: KeyStrokeDisplayStringBuilder,
}

impl DisplayStringBuilder {
    pub closed spec fn spec_spell(self) -> SpellDisplayStringBuilder {
        self.spell
    }

    pub closed spec fn spec_key_stroke(self) -> KeyStrokeDisplayStringBuilder {
        self.key_stroke
    }

    /// Only typing was taken into account: the key stroke cursor is past every key stroke
    /// shown and every wrong position, which are in increasing order, and no spell cursor is
    /// set.
    pub open spec fn typed_only(self) -> bool {
        &&& self.spec_key_stroke().spec_key_stroke().len() == self.spec_key_stroke().spec_cursor()
        &&& self.spec_spell().spec_cursor() is None
        &&& forall|i: int, j: int|
            0 <= i < j < self.spec_key_stroke().spec_wrong().len() ==> (#[trigger] self.spec_key_stroke().spec_wrong()[i])
                < (#[trigger] self.spec_key_stroke().spec_wrong()[j])
        &&& forall|i: int|
            0 <= i < self.spec_key_stroke().spec_wrong().len() ==> (#[trigger] self.spec_key_stroke().spec_wrong()[i])
                < self.spec_key_stroke().spec_cursor()
    }

    pub fn new() -> (r: Self)
        ensures
            r.typed_only(),
            r.spec_spell().spec_spell().len() == 0,
            r.spec_spell().spec_cursor() is None,
            r.spec_spell().spec_wrong().len() == 0,
            r.spec_spell().spec_head() == 0,
            r.spec_key_stroke().spec_key_stroke().len() == 0,
            r.spec_key_stroke().spec_cursor() == 0,
            r.spec_key_stroke().spec_wrong().len() == 0,
    {
        DisplayStringBuilder { spell: SpellDisplayStringBuilder::new(), key_stroke: KeyStrokeDisplayStringBuilder::new() }
    }

    /// A copy of this builder.
    pub fn duplicate(&self) -> (r: Self)
        ensures
            r.spec_spell().spec_spell() == self.spec_spell().spec_spell(),
            r.spec_spell().spec_cursor() == self.spec_spell().spec_cursor(),
            r.spec_spell().spec_wrong() == self.spec_spell().spec_wrong(),
            r.spec_spell().spec_head() == self.spec_spell().spec_head(),
            r.spec_key_stroke().spec_key_stroke() == self.spec_key_stroke().spec_key_stroke(),
            r.spec_key_stroke().spec_cursor() == self.spec_key_stroke().spec_cursor(),
            r.spec_key_stroke().spec_wrong() == self.spec_key_stroke().spec_wrong(),
    {
        DisplayStringBuilder { spell: self.spell.duplicate(), key_stroke: self.key_stroke.duplicate() }
    }

    /// Returns the spell string.
    pub fn spell(&self) -> (r: &SpellDisplayStringBuilder)
        ensures
            *r == self.spec_spell(),
    {
        &self.spell
    }

    /// Returns the key stroke string.
    pub fn key_stroke(&self) -> (r: &KeyStrokeDisplayStringBuilder)
        ensures
            *r == self.spec_key_stroke(),
    {
        &self.key_stroke
    }

    /// Updates the strings with an event:
    /// - a correct key stroke is appended and the cursor moves past it; it is marked wrong
    ///   when wrong key strokes were typed for it;
    /// - a finished (or deemed finished) spell moves the head position past it; it is marked
    ///   wrong when wrong key strokes were typed for it;
    /// - an added chunk appends its spell;
    /// - a snapshotted key stroke is appended without moving the cursor, and is marked wrong
    ///   when wrong key strokes were typed for it;
    /// - a snapshotted inflight spell is marked wrong when wrong key strokes were typed for it,
    ///   and sets the spell cursor at the head position;
    /// - other events change nothing.
    pub fn consume_event(&mut self, event: StatisticalEvent)
        ensures
            match event {
                StatisticalEvent::KeyStrokeCorrect(c) => {
                    let k = old(self).spec_key_stroke();
                    &&& final(self).spec_key_stroke().spec_key_stroke() == k.spec_key_stroke().push(c.spec_key_stroke().spec_char())
                    &&& final(self).spec_key_stroke().spec_cursor() == sat_add(k.spec_cursor(), 1)
                    &&& final(self).spec_key_stroke().spec_wrong() == if c.spec_wrong_key_strokes().len() > 0 {
                        k.spec_wrong().push(k.spec_cursor() as usize)
                    } else {
                        k.spec_wrong()
                    }
                    &&& final(self).spec_spell() == old(self).spec_spell()
                },
                StatisticalEvent::SpellFinished(c) | StatisticalEvent::SpellDeemedFinished(c) => {
                    let s = old(self).spec_spell();
                    &&& final(self).spec_spell().spec_head() == sat_add(s.spec_head(), c.spec_spell().spec_count())
                    &&& final(self).spec_spell().spec_wrong() == if c.spec_wrong_count() != 0 {
                        s.spec_wrong() + if c.spec_spell().spec_count() == 2 {
                            seq![s.spec_head() as usize, sat_add(s.spec_head(), 1) as usize]
                        } else {
                            seq![s.spec_head() as usize]
                        }
                    } else {
                        s.spec_wrong()
                    }
                    &&& final(self).spec_spell().spec_spell() == s.spec_spell()
                    &&& final(self).spec_spell().spec_cursor() == s.spec_cursor()
                    &&& final(self).spec_key_stroke() == old(self).spec_key_stroke()
                },
                StatisticalEvent::ChunkAdded(c) => {
                    &&& final(self).spec_spell().spec_spell() == old(self).spec_spell().spec_spell() + c.spec_spell().spec_chars()
                    &&& final(self).spec_spell().spec_wrong() == old(self).spec_spell().spec_wrong()
                    &&& final(self).spec_spell().spec_head() == old(self).spec_spell().spec_head()
                    &&& final(self).spec_spell().spec_cursor() == old(self).spec_spell().spec_cursor()
                    &&& final(self).spec_key_stroke() == old(self).spec_key_stroke()
                },
                StatisticalEvent::KeyStrokeSnapshotted(c) => {
                    let k = old(self).spec_key_stroke();
                    &&& final(self).spec_key_stroke().spec_key_stroke() == k.spec_key_stroke().push(c.spec_key_stroke().spec_char())
                    &&& final(self).spec_key_stroke().spec_cursor() == k.spec_cursor()
                    &&& final(self).spec_key_stroke().spec_wrong() == if c.spec_wrong_key_strokes() matches Some(w) && w.len() > 0 {
                        k.spec_wrong().push(k.spec_cursor() as usize)
                    } else {
                        k.spec_wrong()
                    }
                    &&& final(self).spec_spell() == old(self).spec_spell()
                },
                StatisticalEvent::InflightSpellSnapshotted(c) => {
                    let s = old(self).spec_spell();
                    &&& final(self).spec_spell().spec_wrong() == if c.spec_wrong_key_strokes().len() > 0 {
                        s.spec_wrong() + if c.spec_spell().spec_count() == 2 {
                            seq![s.spec_head() as usize, sat_add(s.spec_head(), 1) as usize]
                        } else {
                            seq![s.spec_head() as usize]
                        }
                    } else {
                        s.spec_wrong()
                    }
                    &&& final(self).spec_spell().spec_cursor() == Some(if c.spec_cursor() is DoubleCombined {
                        SpellCursorPosition::Double(s.spec_head() as usize, sat_add(s.spec_head(), 1) as usize)
                    } else {
                        SpellCursorPosition::Single(s.spec_head() as usize)
                    })
                    &&& final(self).spec_spell().spec_spell() == s.spec_spell()
                    &&& final(self).spec_spell().spec_head() == s.spec_head()
                    &&& final(self).spec_key_stroke() == old(self).spec_key_stroke()
                },
                _ => *final(self) == *old(self),
            },
    {
        match event {
            StatisticalEvent::KeyStrokeCorrect(c) => {
                if c.wrong_key_strokes().len() > 0 {
                    self.key_stroke.wrong_positions.push(self.key_stroke.cursor_position);
                }
                self.key_stroke.key_stroke.push(c.key_stroke().to_char());
                self.key_stroke.cursor_position = self.key_stroke.cursor_position.saturating_add(1);
            },
            StatisticalEvent::SpellFinished(c) | StatisticalEvent::SpellDeemedFinished(c) => {
                if c.wrong_key_stroke_count() != 0 {
                    self.spell.add_to_wrong_positions(c.spell());
                }
                self.spell.advance_head_position(c.spell().count());
            },
            StatisticalEvent::ChunkAdded(c) => {
                self.spell.append(c.spell());
            },
            StatisticalEvent::KeyStrokeSnapshotted(c) => {
                self.key_stroke.key_stroke.push(c.key_stroke().to_char());
                match c.wrong_key_strokes() {
                    Some(w) => {
                        if w.len() > 0 {
                            self.key_stroke.wrong_positions.push(self.key_stroke.cursor_position);
                        }
                    },
                    None => {},
                }
            },
            StatisticalEvent::InflightSpellSnapshotted(c) => {
                if c.wrong_key_strokes().len() > 0 {
                    self.spell.add_to_wrong_positions(c.spell());
                }
                self.spell.set_cursor_position(c.chunk_spell_cursor_position());
            },
            _ => {},
        }
    }
}

} // verus!
