//! Chunks: the typing units. A chunk is one spell character or a two character spell such
//! as "きょ" which is typed at once.
use vstd::prelude::*;

use crate::dictionary::spec_is_double_chunk;
use crate::spell::SpellString;
use crate::utility::{is_displayable_ascii, spec_is_displayable_ascii};

pub mod key_stroke_candidate;
pub mod unprocessed;
pub mod candidate_unappended;
pub mod has_actual_key_strokes;
pub mod inflight;
pub mod confirmed;

verus! {

/// Whether `s` can be the spell of a chunk: a single character, or two characters which are
/// typed at once.
pub open spec fn spec_valid_chunk_spell(s: Seq<char>) -> bool {
    ||| s.len() == 1
    ||| (s.len() == 2 && spec_is_double_chunk(s[0], s[1]))
}

/// The index of a spell element or a key stroke element in a chunk.
#[derive(Debug, Copy, Clone, PartialEq, Eq, Structural, Hash)]
pub enum ChunkElementIndex {
    /// Index for the only and first element.
    OnlyFirst,
    /// Index for the first element of a double element.
    DoubleFirst,
    /// Index for the second element of a double element.
    DoubleSecond,
}

impl ChunkElementIndex {
    /// The position of this element in the chunk: 1 for the second of two, 0 otherwise.
    pub open spec fn spec_position(self) -> int {
        match self {
            ChunkElementIndex::DoubleSecond => 1,
            _ => 0,
        }
    }

    /// Returns the absolute index of this element with `offset` added.
    pub fn into_absolute_index(self, offset: usize) -> (r: usize)
        requires
            offset + 1 <= usize::MAX,
        ensures
            r == offset + self.spec_position(),
    {
        match self {
            ChunkElementIndex::OnlyFirst | ChunkElementIndex::DoubleFirst => offset,
            ChunkElementIndex::DoubleSecond => offset + 1,
        }
    }
}

/// The spell of a chunk.
#[derive(Debug, PartialEq, Eq, Hash)]
pub enum ChunkSpell {
    /// A single displayable ASCII character.
    DisplayableAscii(SpellString),
    /// A single hiragana or Japanese symbol.
    SingleChar(SpellString),
    /// Two hiragana typed at once.
    DoubleChar(SpellString),
}

impl ChunkSpell {
    /// The characters of this spell.
    pub open spec fn spec_chars(self) -> Seq<char> {
        match self {
            ChunkSpell::DisplayableAscii(s) => s@,
            ChunkSpell::SingleChar(s) => s@,
            ChunkSpell::DoubleChar(s) => s@,
        }
    }

    /// Which variant describes a spell of these characters.
    pub open spec fn wf(self) -> bool {
        match self {
            ChunkSpell::DisplayableAscii(s) => s@.len() == 1 && spec_is_displayable_ascii(s@[0]),
            ChunkSpell::SingleChar(s) => s@.len() == 1 && !spec_is_displayable_ascii(s@[0]),
            ChunkSpell::DoubleChar(s) => s@.len() == 2 && spec_is_double_chunk(s@[0], s@[1]),
        }
    }

    /// Whether two chunk spells are the same variant of the same characters.
    pub open spec fn same_as(self, other: ChunkSpell) -> bool {
        &&& self.spec_chars() == other.spec_chars()
        &&& (self is DisplayableAscii) == (other is DisplayableAscii)
        &&& (self is SingleChar) == (other is SingleChar)
        &&& (self is DoubleChar) == (other is DoubleChar)
    }

    /// Number of spell characters of this chunk.
    pub open spec fn spec_count(self) -> int {
        match self {
            ChunkSpell::DoubleChar(_) => 2,
            _ => 1,
        }
    }

    /// The chunk spell of `ss`, whose variant is decided by its characters.
    pub fn new(ss: SpellString) -> (r: Self)
        requires
            spec_valid_chunk_spell(ss@),
        ensures
            r.wf(),
            r.spec_chars() == ss@,
    {
        if ss.len() == 2 {
            proof {
                // No two character chunk holds an ASCII character.
                assert(!spec_is_displayable_ascii(ss@[0]) && !spec_is_displayable_ascii(ss@[1]));
            }
            ChunkSpell::DoubleChar(ss)
        } else {
            let c = ss.as_chars()[0];
            if is_displayable_ascii(c) {
                ChunkSpell::DisplayableAscii(ss)
            } else {
                ChunkSpell::SingleChar(ss)
            }
        }
    }

    /// The spell string of this chunk.
    pub fn spell_string(&self) -> (r: &SpellString)
        ensures
            r@ == self.spec_chars(),
    {
        match self {
            ChunkSpell::DisplayableAscii(s) | ChunkSpell::SingleChar(s) | ChunkSpell::DoubleChar(
                s,
            ) => s,
        }
    }

    /// A copy of this chunk spell.
    pub fn duplicate(&self) -> (r: Self)
        ensures
            r.same_as(*self),
            r.spec_count() == self.spec_count(),
            self.wf() ==> r.wf(),
    {
        match self {
            ChunkSpell::DisplayableAscii(s) => ChunkSpell::DisplayableAscii(s.duplicate()),
            ChunkSpell::SingleChar(s) => ChunkSpell::SingleChar(s.duplicate()),
            ChunkSpell::DoubleChar(s) => ChunkSpell::DoubleChar(s.duplicate()),
        }
    }

    /// Returns the number of characters in this spell.
    pub fn count(&self) -> (r: usize)
        ensures
            r == self.spec_count(),
    {
        match self {
            ChunkSpell::DoubleChar(_) => 2,
            _ => 1,
        }
    }

    /// Whether this spell is two characters typed at once.
    pub fn is_double_char(&self) -> (r: bool)
        ensures
            r == (self is DoubleChar),
    {
        matches!(self, ChunkSpell::DoubleChar(_))
    }

    /// Whether this spell is a displayable ASCII character.
    pub fn is_displayable_ascii(&self) -> (r: bool)
        ensures
            r == (self is DisplayableAscii),
    {
        matches!(self, ChunkSpell::DisplayableAscii(_))
    }

    /// Splits a two character spell into its two characters.
    pub fn split_double_char(&self) -> (r: (SpellString, SpellString))
        requires
            self.wf(),
            self is DoubleChar,
        ensures
            r.0@ == seq![self.spec_chars()[0]],
            r.1@ == seq![self.spec_chars()[1]],
    {
        let s = self.spell_string();
        (s.char_at(0), s.char_at(1))
    }

    /// The spell of the element at `index`: the whole spell for `OnlyFirst`, otherwise one of
    /// its two characters.
    pub fn spell_at_index(&self, index: ChunkElementIndex) -> (r: ChunkSpell)
        requires
            self.wf(),
            !(self is DoubleChar) ==> index == ChunkElementIndex::OnlyFirst,
        ensures
            r.wf(),
            r.spec_chars() == match index {
                ChunkElementIndex::OnlyFirst => self.spec_chars(),
                ChunkElementIndex::DoubleFirst => seq![self.spec_chars()[0]],
                ChunkElementIndex::DoubleSecond => seq![self.spec_chars()[1]],
            },
    {
        match index {
            ChunkElementIndex::OnlyFirst => ChunkSpell::new(self.spell_string().duplicate()),
            ChunkElementIndex::DoubleFirst => {
                let (first, _) = self.split_double_char();
                ChunkSpell::new(first)
            },
            ChunkElementIndex::DoubleSecond => {
                let (_, second) = self.split_double_char();
                ChunkSpell::new(second)
            },
        }
    }
}

impl Clone for ChunkSpell {
    fn clone(&self) -> (r: Self)
        ensures
            r.same_as(*self),
    {
        self.duplicate()
    }
}

} // verus!
