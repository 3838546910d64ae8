//! A chunk whose typing is finished.
use vstd::prelude::*;

use super::has_actual_key_strokes as hak;
use super::key_stroke_candidate::{all_wf, ChunkKeyStrokeCandidate};
use super::ChunkSpell;
use crate::key_stroke::ActualKeyStroke;

verus! {

/// A chunk whose typing is finished: the candidate which was typed, the candidates ruled
/// out, the ideal candidate and the key strokes typed for it.
#[derive(Debug, Clone, PartialEq, Eq, Hash)]
pub struct ChunkConfirmed {
    spell: ChunkSpell,
    confirmed_key_stroke_candidate: ChunkKeyStrokeCandidate,
    inactive_key_stroke_candidates: Vec<ChunkKeyStrokeCandidate>,
    ideal_candidate: ChunkKeyStrokeCandidate,
    actual_key_strokes: Vec<ActualKeyStroke>,
}

impl ChunkConfirmed {
    pub closed spec fn spec_spell(self) -> ChunkSpell {
        self.spell
    }

    pub closed spec fn spec_confirmed(self) -> ChunkKeyStrokeCandidate {
        self.confirmed_key_stroke_candidate
    }

    pub closed spec fn spec_inactive(self) -> Seq<ChunkKeyStrokeCandidate> {
        self.inactive_key_stroke_candidates@
    }

    pub closed spec fn spec_ideal(self) -> ChunkKeyStrokeCandidate {
        self.ideal_candidate
    }

    pub closed spec fn spec_actual(self) -> Seq<ActualKeyStroke> {
        self.actual_key_strokes@
    }

    pub fn new(
        spell: ChunkSpell,
        confirmed_key_stroke_candidate: ChunkKeyStrokeCandidate,
        inactive_key_stroke_candidates: Vec<ChunkKeyStrokeCandidate>,
        ideal_candidate: ChunkKeyStrokeCandidate,
        actual_key_strokes: Vec<ActualKeyStroke>,
    ) -> (r: Self)
        ensures
            r.spec_spell() == spell,
            r.spec_confirmed() == confirmed_key_stroke_candidate,
            r.spec_inactive() == inactive_key_stroke_candidates@,
            r.spec_ideal() == ideal_candidate,
            r.spec_actual() == actual_key_strokes@,
    {
        ChunkConfirmed {
            spell,
            confirmed_key_stroke_candidate,
            inactive_key_stroke_candidates,
            ideal_candidate,
            actual_key_strokes,
        }
    }

    /// Returns the spell of this chunk.
    pub fn spell(&self) -> (r: &ChunkSpell)
        ensures
            *r == self.spec_spell(),
    {
        &self.spell
    }

    /// Returns the ideal candidate.
    pub fn ideal_key_stroke_candidate(&self) -> (r: &ChunkKeyStrokeCandidate)
        ensures
            *r == self.spec_ideal(),
    {
        &self.ideal_candidate
    }

    /// Returns the candidate which was typed.
    pub fn confirmed_key_stroke_candidate(&self) -> (r: &ChunkKeyStrokeCandidate)
        ensures
            *r == self.spec_confirmed(),
    {
        &self.confirmed_key_stroke_candidate
    }

    /// Returns the key strokes typed for this chunk.
    pub fn actual_key_strokes(&self) -> (r: &[ActualKeyStroke])
        ensures
            r@ == self.spec_actual(),
    {
        self.actual_key_strokes.as_slice()
    }
    /// The spell and the candidates are well formed.
    pub open spec fn wf(self) -> bool {
        &&& self.spec_spell().wf()
        &&& self.spec_confirmed().wf()
        &&& self.spec_ideal().wf()
        &&& all_wf(self.spec_inactive())
    }

    /// Returns the wrong key strokes typed for the correct key stroke at `key_stroke_index`.
    pub fn wrong_key_strokes_for_correct_key_stroke_index(&self, key_stroke_index: usize) -> (r: Vec<ActualKeyStroke>)
        ensures
            r@ == hak::wrong_for_index(self.spec_actual(), key_stroke_index as int),
    {
        hak::wrong_key_strokes_for_correct_key_stroke_index(&self.actual_key_strokes, key_stroke_index)
    }

    /// Returns the number of wrong key strokes before each correct key stroke.
    pub fn wrong_key_stroke_count_of_key_stroke_index(&self) -> (r: Vec<usize>)
        ensures
            r@.len() == hak::wrong_counts(self.spec_actual()).len(),
            forall|k: int| 0 <= k < r@.len() ==> r@[k] == hak::wrong_counts(self.spec_actual())[k],
    {
        hak::wrong_key_stroke_count_of_key_stroke_index(&self.actual_key_strokes)
    }

    /// Returns the positions, shifted by `offset`, of the correct key strokes before which a
    /// wrong key stroke was typed.
    pub fn wrong_key_stroke_positions(&self, offset: usize) -> (r: Vec<usize>)
        requires
            offset + self.spec_actual().len() <= usize::MAX,
        ensures
            r@.len() == hak::positive_positions(hak::wrong_counts(self.spec_actual()), offset as int).len(),
            forall|k: int| 0 <= k < r@.len() ==> r@[k] == hak::positive_positions(hak::wrong_counts(self.spec_actual()), offset as int)[k],
    {
        hak::wrong_key_stroke_positions(&self.actual_key_strokes, offset)
    }

    /// Returns the positions, shifted by `offset`, of the spell characters for which a wrong
    /// key stroke was typed.
    pub fn wrong_spell_positions(&self, offset: usize) -> (r: Vec<usize>)
        requires
            self.wf(),
            offset + 1 <= usize::MAX,
        ensures
            r@.len() == hak::spec_wrong_spell_positions(self.spec_actual(), self.spec_confirmed(), self.spec_spell(), offset as int).len(),
            forall|k: int| 0 <= k < r@.len() ==> r@[k] == hak::spec_wrong_spell_positions(self.spec_actual(), self.spec_confirmed(), self.spec_spell(), offset as int)[k],
    {
        hak::wrong_spell_positions(&self.actual_key_strokes, &self.confirmed_key_stroke_candidate, &self.spell, offset)
    }

    /// Returns, for each key stroke, the number of spell characters it ends.
    pub fn construct_spell_end_vector(&self) -> (r: Vec<Option<usize>>)
        requires
            self.wf(),
        ensures
            r@ == hak::spec_spell_end_vector(self.spec_actual(), self.spec_confirmed(), self.spec_spell()),
    {
        hak::construct_spell_end_vector(&self.actual_key_strokes, &self.confirmed_key_stroke_candidate, &self.spell)
    }

    /// Returns how many spell characters a key stroke of the typed candidate stands for.
    pub fn effective_spell_count(&self) -> (r: usize)
        ensures
            r == hak::spec_effective_spell_count(self.spec_confirmed(), self.spec_spell()),
    {
        hak::effective_spell_count(&self.confirmed_key_stroke_candidate, &self.spell)
    }

}

} // verus!
