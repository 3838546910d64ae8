//! Key stroke candidates of a chunk and the counting of their key stroke elements.
use vstd::prelude::*;

use super::ChunkElementIndex;
use crate::key_stroke::{KeyStrokeChar, KeyStrokeString};
use crate::primitives::NonZeroUsize;
use crate::utility::{bounded, convert_by_weighted_count, spec_ceil_div};

verus! {

/// Key stroke counts of the key stroke elements of a candidate.
#[derive(Debug, Clone, Copy, PartialEq, Eq, Hash)]
pub enum KeyStrokeElementCount {
    /// Key stroke count of a candidate with a single key stroke element.
    Sigle(usize),
    /// Key stroke counts of a candidate which types the two spell characters of a chunk
    /// separately.
    Double((usize, usize)),
}

impl KeyStrokeElementCount {
    pub open spec fn spec_whole_count(self) -> int {
        match self {
            KeyStrokeElementCount::Sigle(c) => c as int,
            KeyStrokeElementCount::Double((c1, c2)) => c1 + c2,
        }
    }

    pub open spec fn spec_is_double(self) -> bool {
        self is Double
    }

    /// Key stroke count of the element at `i`.
    pub open spec fn spec_count_at(self, i: int) -> int {
        match self {
            KeyStrokeElementCount::Sigle(c) => c as int,
            KeyStrokeElementCount::Double((c1, c2)) => if i == 0 {
                c1 as int
            } else {
                c2 as int
            },
        }
    }

    /// Number of key strokes before the element at `i`.
    pub open spec fn spec_offset(self, i: int) -> int {
        match self {
            KeyStrokeElementCount::Sigle(_) => 0,
            KeyStrokeElementCount::Double((c1, _)) => if i == 0 {
                0
            } else {
                c1 as int
            },
        }
    }

    /// The element which the key stroke delta `d` falls in.
    pub open spec fn spec_index_of_delta(self, d: int) -> int {
        match self {
            KeyStrokeElementCount::Sigle(_) => 0,
            KeyStrokeElementCount::Double((c1, _)) => if d <= c1 {
                0
            } else {
                1
            },
        }
    }

    /// The spell delta (number of spell characters covered) after `d` key strokes, for a
    /// chunk of `spell` characters.
    pub open spec fn spec_key_stroke_delta_to_spell_delta(self, spell: int, d: int) -> int {
        let i = self.spec_index_of_delta(d);
        let in_element = d - self.spec_offset(i);
        let effective_spell = if self.spec_is_double() {
            1
        } else {
            spell
        };
        spec_ceil_div(in_element * effective_spell, self.spec_count_at(i)) + i
    }

    /// The counts as seen by spell positions: for a chunk of two spell characters typed at
    /// once, the key strokes are divided between the two characters.
    pub open spec fn spec_pseudo(self, spell: int) -> KeyStrokeElementCount {
        match self {
            KeyStrokeElementCount::Sigle(c) => if spell == 2 {
                KeyStrokeElementCount::Double(((c / 2) as usize, (c - c / 2) as usize))
            } else {
                self
            },
            KeyStrokeElementCount::Double(_) => self,
        }
    }

    /// Number of key strokes which cover the first `sd` spell characters.
    pub open spec fn spec_spell_delta_to_key_stroke_delta(self, spell: int, sd: int) -> int {
        let p = self.spec_pseudo(spell);
        p.spec_offset(sd - 1) + p.spec_count_at(sd - 1)
    }

    /// Whether the counts fit a chunk of `spell` characters and stay bounded.
    pub open spec fn fits_spell(self, spell: int) -> bool {
        &&& spell == 1 || spell == 2
        &&& self.spec_is_double() ==> spell == 2
        &&& bounded(self.spec_whole_count())
    }

    /// The counts of one or two key stroke elements.
    pub fn new(counts: &[usize]) -> (r: Self)
        requires
            counts@.len() == 1 || counts@.len() == 2,
        ensures
            counts@.len() == 1 ==> r == KeyStrokeElementCount::Sigle(counts@[0]),
            counts@.len() == 2 ==> r == KeyStrokeElementCount::Double((counts@[0], counts@[1])),
    {
        if counts.len() == 1 {
            KeyStrokeElementCount::Sigle(counts[0])
        } else {
            KeyStrokeElementCount::Double((counts[0], counts[1]))
        }
    }

    /// Returns whole key stroke count of a candidate.
    pub fn whole_count(&self) -> (r: usize)
        requires
            self.spec_whole_count() <= usize::MAX,
        ensures
            r == self.spec_whole_count(),
    {
        match self {
            KeyStrokeElementCount::Sigle(c) => *c,
            KeyStrokeElementCount::Double((c1, c2)) => *c1 + *c2,
        }
    }

    /// Returns the whole key stroke count, if it fits in a `usize`.
    pub fn checked_whole_count(&self) -> (r: Option<usize>)
        ensures
            self.spec_whole_count() <= usize::MAX ==> r == Some(self.spec_whole_count() as usize),
            self.spec_whole_count() > usize::MAX ==> r is None,
    {
        match self {
            KeyStrokeElementCount::Sigle(c) => Some(*c),
            KeyStrokeElementCount::Double((c1, c2)) => c1.checked_add(*c2),
        }
    }

    /// Returns whether there are two key stroke elements.
    pub fn is_double(&self) -> (r: bool)
        ensures
            r == self.spec_is_double(),
    {
        matches!(self, KeyStrokeElementCount::Double(_))
    }

    /// Returns the element which the key stroke delta falls in.
    pub fn spell_elements_index_of_delta(&self, key_stroke_delta: usize) -> (r: usize)
        requires
            key_stroke_delta <= self.spec_whole_count(),
        ensures
            r == self.spec_index_of_delta(key_stroke_delta as int),
            r == 0 || r == 1,
    {
        match self {
            KeyStrokeElementCount::Sigle(_) => 0,
            KeyStrokeElementCount::Double((c1, _)) => if key_stroke_delta <= *c1 {
                0
            } else {
                1
            },
        }
    }

    /// Returns the key stroke count of the element at `spell_elements_index`.
    pub fn count_of_spell_elements_index(&self, spell_elements_index: usize) -> (r: usize)
        requires
            self.spec_is_double() ==> spell_elements_index <= 1,
        ensures
            r == self.spec_count_at(spell_elements_index as int),
    {
        match self {
            KeyStrokeElementCount::Sigle(c) => *c,
            KeyStrokeElementCount::Double((c1, c2)) => if spell_elements_index == 0 {
                *c1
            } else {
                *c2
            },
        }
    }

    /// Returns the number of key strokes before the element at `spell_elements_index`.
    pub fn key_stroke_count_offset(&self, spell_elements_index: usize) -> (r: usize)
        ensures
            r == self.spec_offset(spell_elements_index as int),
    {
        match self {
            KeyStrokeElementCount::Sigle(_) => 0,
            KeyStrokeElementCount::Double((c1, _)) => if spell_elements_index == 0 {
                0
            } else {
                *c1
            },
        }
    }

    /// Converts a key stroke position delta to the spell position delta.
    pub fn convert_key_stroke_delta_to_spell_delta(&self, spell: usize, key_stroke_delta: usize) -> (r: usize)
        requires
            self.fits_spell(spell as int),
            key_stroke_delta <= self.spec_whole_count(),
            self.spec_count_at(self.spec_index_of_delta(key_stroke_delta as int)) > 0,
        ensures
            r == self.spec_key_stroke_delta_to_spell_delta(spell as int, key_stroke_delta as int),
    {
        let spell_elements_index = self.spell_elements_index_of_delta(key_stroke_delta);
        let in_spell_element_key_stroke_delta = key_stroke_delta - self.key_stroke_count_offset(
            spell_elements_index,
        );
        let effective_spell_count = if self.is_double() {
            1
        } else {
            spell
        };
        proof {
            let i = spell_elements_index as int;
            assert(in_spell_element_key_stroke_delta <= self.spec_count_at(i));
            assert(self.spec_count_at(i) <= self.spec_whole_count());
            assert(in_spell_element_key_stroke_delta * effective_spell_count <= 0x8000 * 2)
                by (nonlinear_arith)
                requires
                    in_spell_element_key_stroke_delta < 0x8000,
                    effective_spell_count <= 2,
            ;
        }
        convert_by_weighted_count(
            self.count_of_spell_elements_index(spell_elements_index),
            effective_spell_count,
            in_spell_element_key_stroke_delta,
        ) + spell_elements_index
    }

    /// The counts divided between spell characters: for a chunk of two spell characters typed
    /// at once, the first half of the key strokes belongs to the first character.
    pub fn construct_pseudo_count_of_spell_elements(&self, spell: usize) -> (r: Self)
        requires
            self.fits_spell(spell as int),
        ensures
            r == self.spec_pseudo(spell as int),
            r.spec_whole_count() == self.spec_whole_count(),
            spell == 2 ==> r.spec_is_double(),
    {
        match self {
            KeyStrokeElementCount::Sigle(c) => if spell == 2 {
                KeyStrokeElementCount::Double((*c / 2, *c - *c / 2))
            } else {
                *self
            },
            KeyStrokeElementCount::Double(_) => *self,
        }
    }

    /// Converts a spell position delta to the key stroke position delta.
    pub fn convert_spell_delta_to_key_stroke_delta(&self, spell: usize, spell_delta: usize) -> (r: usize)
        requires
            self.fits_spell(spell as int),
            1 <= spell_delta <= spell,
        ensures
            r == self.spec_spell_delta_to_key_stroke_delta(spell as int, spell_delta as int),
    {
        let pseudo_count = self.construct_pseudo_count_of_spell_elements(spell);
        pseudo_count.key_stroke_count_offset(spell_delta - 1)
            + pseudo_count.count_of_spell_elements_index(spell_delta - 1)
    }
}

/// Dividing the key strokes of a two character spell typed at once: key stroke `i` (1-based)
/// covers the first character exactly when it is in the first half, so the pseudo counts are
/// the numbers of key strokes assigned to each character.
pub proof fn lemma_pseudo_count_divides_key_strokes(c: int, i: int)
    requires
        0 < c,
        1 <= i <= c,
    ensures
        spec_ceil_div(i * 2, c) == if i <= c / 2 {
            1int
        } else {
            2int
        },
{
    assert(spec_ceil_div(i * 2, c) == (i * 2 + c - 1) / c);
    if i <= c / 2 {
        assert(i * 2 <= c) by (nonlinear_arith)
            requires
                i <= c / 2,
                0 < c,
        ;
        assert((i * 2 + c - 1) / c == 1) by (nonlinear_arith)
            requires
                i * 2 <= c,
                1 <= i,
                0 < c,
        ;
    } else {
        assert(i * 2 > c) by (nonlinear_arith)
            requires
                i > c / 2,
                0 < c,
        ;
        assert((i * 2 + c - 1) / c == 2) by (nonlinear_arith)
            requires
                i * 2 > c,
                i <= c,
                0 < c,
        ;
    }
}

/// The key strokes of a candidate.
#[derive(Debug, PartialEq, Eq, Hash)]
pub enum CandidateKeyStroke {
    /// Key strokes of a candidate of a single character chunk, ex. ( "ki" ) for "き".
    Normal(KeyStrokeString),
    /// Key strokes typing both characters of a two character chunk at once, ex. ( "kyo" )
    /// for "きょ".
    Double(KeyStrokeString),
    /// Key strokes typing the two characters of a two character chunk separately,
    /// ex. ( "ki", "lyo" ) for "きょ".
    DoubleSplitted(KeyStrokeString, KeyStrokeString),
}

/// The first `n` characters of `s` (all of `s` when it is shorter).
pub open spec fn spec_prefix(s: Seq<char>, n: int) -> Seq<char> {
    if n <= 0 {
        Seq::empty()
    } else if n <= s.len() {
        s.subrange(0, n)
    } else {
        s
    }
}

impl CandidateKeyStroke {
    /// The whole key strokes of this candidate.
    pub open spec fn spec_whole(self) -> Seq<char> {
        match self {
            CandidateKeyStroke::Normal(s) => s@,
            CandidateKeyStroke::Double(s) => s@,
            CandidateKeyStroke::DoubleSplitted(s1, s2) => s1@ + s2@,
        }
    }

    /// Key strokes are not empty; a separately typed first element is not empty.
    pub open spec fn wf(self) -> bool {
        match self {
            CandidateKeyStroke::Normal(s) => s@.len() > 0,
            CandidateKeyStroke::Double(s) => s@.len() > 0,
            CandidateKeyStroke::DoubleSplitted(s1, _) => s1@.len() > 0,
        }
    }

    pub open spec fn spec_is_double(self) -> bool {
        self is Double || self is DoubleSplitted
    }

    pub open spec fn spec_element_count(self) -> KeyStrokeElementCount {
        match self {
            CandidateKeyStroke::Normal(s) => KeyStrokeElementCount::Sigle(s@.len() as usize),
            CandidateKeyStroke::Double(s) => KeyStrokeElementCount::Sigle(s@.len() as usize),
            CandidateKeyStroke::DoubleSplitted(s1, s2) => KeyStrokeElementCount::Double(
                (s1@.len() as usize, s2@.len() as usize),
            ),
        }
    }

    /// The element which the key stroke at `index` belongs to, `None` when it is past the
    /// end.
    pub open spec fn spec_belonging_element(self, index: int) -> Option<ChunkElementIndex> {
        if index < 0 || index >= self.spec_whole().len() {
            None
        } else {
            match self {
                CandidateKeyStroke::DoubleSplitted(s1, _) => if index < s1@.len() {
                    Some(ChunkElementIndex::DoubleFirst)
                } else {
                    Some(ChunkElementIndex::DoubleSecond)
                },
                _ => Some(ChunkElementIndex::OnlyFirst),
            }
        }
    }

    /// Whether the key stroke at `index` is the last of its element, `None` when it is past
    /// the end.
    pub open spec fn spec_is_element_end(self, index: int) -> Option<bool> {
        if index < 0 || index >= self.spec_whole().len() {
            None
        } else {
            match self {
                CandidateKeyStroke::DoubleSplitted(s1, s2) => Some(
                    index == s1@.len() - 1 || index == s1@.len() + s2@.len() - 1,
                ),
                _ => Some(index == self.spec_whole().len() - 1),
            }
        }
    }

    /// The candidate restricted to its first `n` key strokes.
    pub open spec fn spec_restricted(self, n: int, r: CandidateKeyStroke) -> bool {
        match (self, r) {
            (CandidateKeyStroke::Normal(s), CandidateKeyStroke::Normal(t)) => t@ == spec_prefix(
                s@,
                n,
            ),
            (CandidateKeyStroke::Double(s), CandidateKeyStroke::Double(t)) => t@ == spec_prefix(
                s@,
                n,
            ),
            (
                CandidateKeyStroke::DoubleSplitted(s1, s2),
                CandidateKeyStroke::DoubleSplitted(t1, t2),
            ) => t1@ == spec_prefix(s1@, n) && t2@ == spec_prefix(s2@, n - s1@.len()),
            _ => false,
        }
    }

    /// A copy of these key strokes.
    pub fn duplicate(&self) -> (r: Self)
        ensures
            r.spec_whole() == self.spec_whole(),
            r.spec_element_count() == self.spec_element_count(),
            r.wf() == self.wf(),
            (r is Normal) == (self is Normal),
            (r is Double) == (self is Double),
            (r is DoubleSplitted) == (self is DoubleSplitted),
            forall|i: int| #[trigger] r.spec_belonging_element(i) == self.spec_belonging_element(i),
            forall|i: int| #[trigger] r.spec_is_element_end(i) == self.spec_is_element_end(i),
    {
        match self {
            CandidateKeyStroke::Normal(s) => CandidateKeyStroke::Normal(s.duplicate()),
            CandidateKeyStroke::Double(s) => CandidateKeyStroke::Double(s.duplicate()),
            CandidateKeyStroke::DoubleSplitted(s1, s2) => CandidateKeyStroke::DoubleSplitted(
                s1.duplicate(),
                s2.duplicate(),
            ),
        }
    }

    /// Returns whether these key strokes type two spell characters.
    pub fn is_double(&self) -> (r: bool)
        ensures
            r == self.spec_is_double(),
    {
        matches!(self, CandidateKeyStroke::Double(_) | CandidateKeyStroke::DoubleSplitted(_, _))
    }

    /// Returns whether these key strokes type two spell characters separately.
    pub fn is_double_splitted(&self) -> (r: bool)
        ensures
            r == (self is DoubleSplitted),
    {
        matches!(self, CandidateKeyStroke::DoubleSplitted(_, _))
    }

    /// Returns the whole key strokes.
    pub fn whole_key_stroke(&self) -> (r: KeyStrokeString)
        ensures
            r@ == self.spec_whole(),
    {
        match self {
            CandidateKeyStroke::Normal(s) | CandidateKeyStroke::Double(s) => s.duplicate(),
            CandidateKeyStroke::DoubleSplitted(s1, s2) => s1.concat(s2),
        }
    }

    /// Returns the number of key strokes.
    pub fn key_stroke_count(&self) -> (r: usize)
        requires
            self.spec_whole().len() <= usize::MAX,
        ensures
            r == self.spec_whole().len(),
    {
        match self {
            CandidateKeyStroke::Normal(s) | CandidateKeyStroke::Double(s) => s.len(),
            CandidateKeyStroke::DoubleSplitted(s1, s2) => s1.len() + s2.len(),
        }
    }

    /// Returns the key stroke counts of the elements.
    pub fn construct_key_stroke_element_count(&self) -> (r: KeyStrokeElementCount)
        ensures
            r == self.spec_element_count(),
            r.spec_whole_count() == self.spec_whole().len(),
    {
        match self {
            CandidateKeyStroke::Normal(s) | CandidateKeyStroke::Double(s) => KeyStrokeElementCount::Sigle(s.len()),
            CandidateKeyStroke::DoubleSplitted(s1, s2) => KeyStrokeElementCount::Double(
                (s1.len(), s2.len()),
            ),
        }
    }

    /// Returns the element which the key stroke at `key_stroke_index` belongs to.
    pub fn belonging_element_index_of_key_stroke(&self, key_stroke_index: usize) -> (r: Option<ChunkElementIndex>)
        requires
            self.spec_whole().len() <= usize::MAX,
        ensures
            r == self.spec_belonging_element(key_stroke_index as int),
    {
        if self.key_stroke_count() <= key_stroke_index {
            return None;
        }
        match self {
            CandidateKeyStroke::Normal(_) | CandidateKeyStroke::Double(_) => Some(ChunkElementIndex::OnlyFirst),
            CandidateKeyStroke::DoubleSplitted(s1, _) => if key_stroke_index < s1.len() {
                Some(ChunkElementIndex::DoubleFirst)
            } else {
                Some(ChunkElementIndex::DoubleSecond)
            },
        }
    }

    /// Returns whether the key stroke at `key_stroke_index` ends its element.
    pub fn is_element_end_at_key_stroke_index(&self, key_stroke_index: usize) -> (r: Option<bool>)
        requires
            self.spec_whole().len() <= usize::MAX,
        ensures
            r == self.spec_is_element_end(key_stroke_index as int),
    {
        if self.key_stroke_count() <= key_stroke_index {
            return None;
        }
        match self {
            CandidateKeyStroke::Normal(s) | CandidateKeyStroke::Double(s) => Some(
                key_stroke_index == s.len() - 1,
            ),
            CandidateKeyStroke::DoubleSplitted(s1, s2) => {
                let s1_len = s1.len();
                let s2_len = s2.len();
                Some(key_stroke_index + 1 == s1_len || key_stroke_index + 1 == s1_len + s2_len)
            },
        }
    }

    /// These key strokes restricted to the first `key_stroke_count_striction` key strokes.
    pub fn restricted(&self, key_stroke_count_striction: NonZeroUsize) -> (r: Self)
        requires
            self.wf(),
        ensures
            self.spec_restricted(key_stroke_count_striction.spec_get() as int, r),
            r.wf(),
            r.spec_whole() == spec_prefix(
                self.spec_whole(),
                key_stroke_count_striction.spec_get() as int,
            ),
    {
        let n = key_stroke_count_striction.get();
        match self {
            CandidateKeyStroke::Normal(s) => {
                let t = s.prefix(n);
                CandidateKeyStroke::Normal(t)
            },
            CandidateKeyStroke::Double(s) => {
                let t = s.prefix(n);
                CandidateKeyStroke::Double(t)
            },
            CandidateKeyStroke::DoubleSplitted(s1, s2) => {
                let t1 = s1.prefix(n);
                let rest = if n > s1.len() {
                    n - s1.len()
                } else {
                    0
                };
                let t2 = s2.prefix(rest);
                proof {
                    if rest == 0 {
                        assert(t2@ =~= Seq::<char>::empty());
                    }
                    let w = s1@ + s2@;
                    if n <= s1@.len() {
                        assert(t1@ + t2@ =~= w.subrange(0, n as int));
                    } else if n <= w.len() {
                        assert(t1@ + t2@ =~= w.subrange(0, n as int));
                    } else {
                        assert(t1@ + t2@ =~= w);
                    }
                }
                CandidateKeyStroke::DoubleSplitted(t1, t2)
            },
        }
    }
}

impl Clone for CandidateKeyStroke {
    fn clone(&self) -> (r: Self)
        ensures
            r.spec_whole() == self.spec_whole(),
    {
        self.duplicate()
    }
}

/// Information of a delayed confirmed candidate: a candidate whose key strokes are a prefix of
/// another candidate's, so that typing it does not confirm the chunk until the next key stroke
/// shows whether it begins the next chunk.
///
/// Ex. the chunk "ん" has the candidates "n", "nn" and "xn"; after "n" the chunk is confirmed
/// only when the next key stroke is a valid head of the next chunk.
#[derive(Debug, PartialEq, Eq, Hash)]
pub struct DelayedConfirmedCandidateInfo {
    /// Key strokes valid as the head of the next chunk.
    next_chunk_head: Vec<KeyStrokeChar>,
}

impl DelayedConfirmedCandidateInfo {
    pub closed spec fn spec_next_chunk_head(self) -> Seq<KeyStrokeChar> {
        self.next_chunk_head@
    }

    pub fn new(next_chunk_head: Vec<KeyStrokeChar>) -> (r: Self)
        ensures
            r.spec_next_chunk_head() == next_chunk_head@,
    {
        DelayedConfirmedCandidateInfo { next_chunk_head }
    }

    /// A copy of this information.
    pub fn duplicate(&self) -> (r: Self)
        ensures
            r.spec_next_chunk_head() == self.spec_next_chunk_head(),
    {
        DelayedConfirmedCandidateInfo { next_chunk_head: self.next_chunk_head.clone() }
    }

    /// The key strokes valid as the head of the next chunk.
    pub fn next_chunk_head(&self) -> (r: &Vec<KeyStrokeChar>)
        ensures
            r@ == self.spec_next_chunk_head(),
    {
        &self.next_chunk_head
    }

    /// Returns whether `key_stroke` is a valid head of the next chunk, which confirms the
    /// chunk.
    pub fn can_confirm_with_key_stroke(&self, key_stroke: KeyStrokeChar) -> (r: bool)
        ensures
            r == self.spec_next_chunk_head().contains(key_stroke),
    {
        let mut i: usize = 0;
        while i < self.next_chunk_head.len()
            invariant
                i <= self.next_chunk_head@.len(),
                forall|j: int| 0 <= j < i ==> self.next_chunk_head@[j] != key_stroke,
            decreases self.next_chunk_head@.len() - i,
        {
            if self.next_chunk_head[i].same_as(&key_stroke) {
                return true;
            }
            i = i + 1;
        }
        false
    }
}

impl Clone for DelayedConfirmedCandidateInfo {
    fn clone(&self) -> (r: Self)
        ensures
            r.spec_next_chunk_head() == self.spec_next_chunk_head(),
    {
        self.duplicate()
    }
}

/// A single candidate of key strokes of a chunk.
#[derive(Debug, PartialEq, Eq, Hash)]
pub struct ChunkKeyStrokeCandidate {
    /// Key strokes of this candidate.
    key_stroke: CandidateKeyStroke,
    /// The key stroke the next chunk must begin with when this candidate is typed.
    next_chunk_head_constraint: Option<KeyStrokeChar>,
    /// Present when this candidate is a delayed confirmed candidate.
    delayed_confirmed_candidate_info: Option<DelayedConfirmedCandidateInfo>,
}

impl ChunkKeyStrokeCandidate {
    pub closed spec fn spec_key_stroke(self) -> CandidateKeyStroke {
        self.key_stroke
    }

    pub closed spec fn spec_next_chunk_head_constraint(self) -> Option<KeyStrokeChar> {
        self.next_chunk_head_constraint
    }

    pub closed spec fn spec_delayed(self) -> Option<DelayedConfirmedCandidateInfo> {
        self.delayed_confirmed_candidate_info
    }

    /// The whole key strokes of this candidate.
    pub open spec fn spec_whole(self) -> Seq<char> {
        self.spec_key_stroke().spec_whole()
    }

    /// Key strokes are well formed and their number is bounded.
    pub open spec fn wf(self) -> bool {
        &&& self.spec_key_stroke().wf()
        &&& bounded(self.spec_whole().len() as int)
    }

    /// Whether two candidates are the same.
    pub open spec fn same_as(self, other: ChunkKeyStrokeCandidate) -> bool {
        &&& self.spec_whole() == other.spec_whole()
        &&& self.spec_key_stroke().spec_element_count() == other.spec_key_stroke().spec_element_count()
        &&& (self.spec_key_stroke() is Normal) == (other.spec_key_stroke() is Normal)
        &&& (self.spec_key_stroke() is Double) == (other.spec_key_stroke() is Double)
        &&& (self.spec_key_stroke() is DoubleSplitted) == (other.spec_key_stroke() is DoubleSplitted)
        &&& self.spec_key_stroke().wf() == other.spec_key_stroke().wf()
        &&& self.spec_next_chunk_head_constraint() == other.spec_next_chunk_head_constraint()
        &&& self.spec_delayed() is Some == other.spec_delayed() is Some
        &&& (self.spec_delayed() matches Some(d) ==> other.spec_delayed()->0.spec_next_chunk_head()
            == d.spec_next_chunk_head())
        &&& forall|i: int| #[trigger] self.spec_key_stroke().spec_belonging_element(i)
            == other.spec_key_stroke().spec_belonging_element(i)
        &&& forall|i: int| #[trigger] self.spec_key_stroke().spec_is_element_end(i)
            == other.spec_key_stroke().spec_is_element_end(i)
    }

    pub fn new(
        key_stroke: CandidateKeyStroke,
        next_chunk_head_constraint: Option<KeyStrokeChar>,
        delayed_confirmed_candidate_info: Option<DelayedConfirmedCandidateInfo>,
    ) -> (r: Self)
        ensures
            r.spec_key_stroke() == key_stroke,
            r.spec_next_chunk_head_constraint() == next_chunk_head_constraint,
            r.spec_delayed() == delayed_confirmed_candidate_info,
    {
        ChunkKeyStrokeCandidate {
            key_stroke,
            next_chunk_head_constraint,
            delayed_confirmed_candidate_info,
        }
    }

    /// A copy of this candidate.
    pub fn duplicate(&self) -> (r: Self)
        ensures
            r.same_as(*self),
            self.wf() ==> r.wf(),
    {
        let d = match &self.delayed_confirmed_candidate_info {
            Some(d) => Some(d.duplicate()),
            None => None,
        };
        ChunkKeyStrokeCandidate {
            key_stroke: self.key_stroke.duplicate(),
            next_chunk_head_constraint: self.next_chunk_head_constraint,
            delayed_confirmed_candidate_info: d,
        }
    }

    /// Returns the key strokes of this candidate.
    pub fn key_stroke(&self) -> (r: &CandidateKeyStroke)
        ensures
            *r == self.spec_key_stroke(),
    {
        &self.key_stroke
    }

    /// Returns the key stroke the next chunk must begin with, if any.
    pub fn next_chunk_head_constraint(&self) -> (r: Option<KeyStrokeChar>)
        ensures
            r == self.spec_next_chunk_head_constraint(),
    {
        self.next_chunk_head_constraint
    }

    /// Returns the delayed confirmation information of this candidate.
    pub fn delayed_confirmed_candidate_info(&self) -> (r: &Option<DelayedConfirmedCandidateInfo>)
        ensures
            *r == self.spec_delayed(),
    {
        &self.delayed_confirmed_candidate_info
    }

    /// Returns the whole key strokes of this candidate.
    pub fn whole_key_stroke(&self) -> (r: KeyStrokeString)
        ensures
            r@ == self.spec_whole(),
    {
        self.key_stroke.whole_key_stroke()
    }

    /// Returns whether this candidate is a delayed confirmed candidate.
    pub fn is_delayed_confirmed_candidate(&self) -> (r: bool)
        ensures
            r == self.spec_delayed() is Some,
    {
        self.delayed_confirmed_candidate_info.is_some()
    }

    /// Returns how many key strokes type this candidate.
    pub fn calc_key_stroke_count(&self) -> (r: usize)
        requires
            self.wf(),
        ensures
            r == self.spec_whole().len(),
    {
        self.key_stroke.key_stroke_count()
    }

    /// Returns the key stroke at `position`.
    pub fn key_stroke_char_at_position(&self, position: usize) -> (r: KeyStrokeChar)
        requires
            self.wf(),
            position < self.spec_whole().len(),
        ensures
            r.spec_char() == self.spec_whole()[position as int],
    {
        let whole = self.whole_key_stroke();
        whole.key_stroke_char_at(position)
    }

    /// Returns whether `key_stroke` is the key stroke of this candidate at `cursor_position`.
    pub fn is_hit(&self, key_stroke: &KeyStrokeChar, cursor_position: usize) -> (r: bool)
        requires
            self.wf(),
        ensures
            r == (cursor_position < self.spec_whole().len() && self.spec_whole()[cursor_position as int]
                == key_stroke.spec_char()),
    {
        if cursor_position < self.calc_key_stroke_count() {
            self.key_stroke_char_at_position(cursor_position).same_as(key_stroke)
        } else {
            false
        }
    }

    /// Returns the element which the key stroke at `key_stroke_index` belongs to.
    pub fn belonging_element_index_of_key_stroke(&self, key_stroke_index: usize) -> (r: Option<ChunkElementIndex>)
        requires
            self.wf(),
        ensures
            r == self.spec_key_stroke().spec_belonging_element(key_stroke_index as int),
    {
        self.key_stroke.belonging_element_index_of_key_stroke(key_stroke_index)
    }

    /// Returns whether the key stroke at `key_stroke_index` ends its element.
    pub fn is_element_end_at_key_stroke_index(&self, key_stroke_index: usize) -> (r: Option<bool>)
        requires
            self.wf(),
        ensures
            r == self.spec_key_stroke().spec_is_element_end(key_stroke_index as int),
    {
        self.key_stroke.is_element_end_at_key_stroke_index(key_stroke_index)
    }

    /// Returns the key stroke counts of the elements of this candidate.
    pub fn construct_key_stroke_element_count(&self) -> (r: KeyStrokeElementCount)
        ensures
            r == self.spec_key_stroke().spec_element_count(),
            r.spec_whole_count() == self.spec_whole().len(),
    {
        self.key_stroke.construct_key_stroke_element_count()
    }

    /// Restricts this candidate to its first `key_stroke_count_striction` key strokes. The
    /// chunk of the candidate is assumed to be the last one, so the restricted candidate
    /// constrains no next chunk and is never delayed confirmed.
    pub fn strict_key_stroke_count(&mut self, key_stroke_count_striction: NonZeroUsize)
        requires
            old(self).wf(),
        ensures
            old(self).spec_key_stroke().spec_restricted(
                key_stroke_count_striction.spec_get() as int,
                final(self).spec_key_stroke(),
            ),
            final(self).spec_whole() == spec_prefix(
                old(self).spec_whole(),
                key_stroke_count_striction.spec_get() as int,
            ),
            final(self).spec_next_chunk_head_constraint() is None,
            final(self).spec_delayed() is None,
            final(self).wf(),
    {
        let k = self.key_stroke.restricted(key_stroke_count_striction);
        proof {
            let n = key_stroke_count_striction.spec_get() as int;
            let w = self.spec_whole();
            assert(spec_prefix(w, n).len() <= w.len());
        }
        self.key_stroke = k;
        self.next_chunk_head_constraint = None;
        self.delayed_confirmed_candidate_info = None;
    }
}

impl Clone for ChunkKeyStrokeCandidate {
    fn clone(&self) -> (r: Self)
        ensures
            r.same_as(*self),
    {
        self.duplicate()
    }
}

/// Whether the candidate begins with the key stroke `k`.
pub open spec fn starts_with(c: ChunkKeyStrokeCandidate, k: KeyStrokeChar) -> bool {
    c.spec_whole().len() > 0 && c.spec_whole()[0] == k.spec_char()
}

/// Whether the candidate meets the head restriction `head`.
pub open spec fn meets_head(c: ChunkKeyStrokeCandidate, head: Option<KeyStrokeChar>) -> bool {
    match head {
        None => true,
        Some(k) => starts_with(c, k),
    }
}

/// Every candidate is well formed.
pub open spec fn all_wf(s: Seq<ChunkKeyStrokeCandidate>) -> bool {
    forall|i: int| 0 <= i < s.len() ==> (#[trigger] s[i]).wf()
}

/// Candidates are in non-decreasing order of their key stroke counts.
pub open spec fn sorted_by_count(s: Seq<ChunkKeyStrokeCandidate>) -> bool {
    forall|i: int, j: int|
        0 <= i < j < s.len() ==> (#[trigger] s[i]).spec_whole().len() <= (#[trigger] s[j]).spec_whole().len()
}

/// `r` is the index of the first candidate of minimal key stroke count among those meeting
/// `head`.
pub open spec fn is_min_candidate_index(
    s: Seq<ChunkKeyStrokeCandidate>,
    head: Option<KeyStrokeChar>,
    r: int,
) -> bool {
    &&& 0 <= r < s.len()
    &&& meets_head(s[r], head)
    &&& forall|j: int|
        0 <= j < s.len() && meets_head(#[trigger] s[j], head) ==> s[r].spec_whole().len()
            <= s[j].spec_whole().len()
    &&& forall|j: int|
        0 <= j < r && meets_head(#[trigger] s[j], head) ==> s[r].spec_whole().len()
            < s[j].spec_whole().len()
}

/// Returns the index of the first candidate with the fewest key strokes among those meeting
/// the head restriction `head`.
pub fn min_candidate_index(candidates: &Vec<ChunkKeyStrokeCandidate>, head: Option<KeyStrokeChar>) -> (r: usize)
    requires
        all_wf(candidates@),
        exists|j: int| 0 <= j < candidates@.len() && meets_head(#[trigger] candidates@[j], head),
    ensures
        is_min_candidate_index(candidates@, head, r as int),
{
    let mut best: Option<usize> = None;
    let mut i: usize = 0;
    while i < candidates.len()
        invariant
            all_wf(candidates@),
            i <= candidates@.len(),
            exists|j: int| 0 <= j < candidates@.len() && meets_head(#[trigger] candidates@[j], head),
            best is None ==> forall|j: int| 0 <= j < i ==> !meets_head(#[trigger] candidates@[j], head),
            best matches Some(b) ==> {
                &&& b < i
                &&& meets_head(candidates@[b as int], head)
                &&& forall|j: int|
                    0 <= j < i && meets_head(#[trigger] candidates@[j], head)
                        ==> candidates@[b as int].spec_whole().len() <= candidates@[j].spec_whole().len()
                &&& forall|j: int|
                    0 <= j < b && meets_head(#[trigger] candidates@[j], head)
                        ==> candidates@[b as int].spec_whole().len() < candidates@[j].spec_whole().len()
            },
        decreases candidates@.len() - i,
    {
        let c = &candidates[i];
        let meets = match head {
            None => true,
            Some(k) => c.calc_key_stroke_count() > 0 && c.key_stroke_char_at_position(0).same_as(&k),
        };
        if meets {
            match best {
                None => {
                    best = Some(i);
                },
                Some(b) => {
                    if c.calc_key_stroke_count() < candidates[b].calc_key_stroke_count() {
                        best = Some(i);
                    }
                },
            }
        }
        i = i + 1;
    }
    match best {
        Some(b) => b,
        None => {
            proof {
                let j = choose|j: int| 0 <= j < candidates@.len() && meets_head(#[trigger] candidates@[j], head);
                assert(!meets_head(candidates@[j], head));
            }
            0
        },
    }
}

} // verus!
