//! Conversion of position deltas inside a chunk between its targets: the chunk itself, its
//! spell, its ideal key strokes and its actual key strokes.
use vstd::prelude::*;

use crate::chunk::key_stroke_candidate::KeyStrokeElementCount;
use crate::utility::{bounded, convert_by_weighted_count, spec_ceil_div};

verus! {

/// The target whose deltas a converter takes.
#[derive(Debug, Clone, Copy, PartialEq, Eq)]
pub enum BaseTarget {
    Chunk,
    Spell,
    IdealKeyStroke,
    KeyStroke,
}

/// Every key stroke element of the counts has at least one key stroke.
pub open spec fn positive_counts(c: KeyStrokeElementCount) -> bool {
    match c {
        KeyStrokeElementCount::Sigle(n) => n > 0,
        KeyStrokeElementCount::Double((a, b)) => a > 0 && b > 0,
    }
}

/// The element of `from` (as divided between spell characters) which the delta falls in has
/// at least one key stroke, so that a position inside it can be scaled.
pub open spec fn convertible(from: KeyStrokeElementCount, spell: int, d: int) -> bool {
    let p = from.spec_pseudo(spell);
    &&& from.fits_spell(spell)
    &&& 0 <= d <= from.spec_whole_count()
    &&& p.spec_count_at(p.spec_index_of_delta(d)) > 0
}

/// The key stroke delta in `to` corresponding to the key stroke delta `d` in `from`: the
/// delta is located in a spell element of `from` and scaled into the same element of `to`.
pub open spec fn spec_convert_between(from: KeyStrokeElementCount, to: KeyStrokeElementCount, spell: int, d: int) -> int {
    let pf = from.spec_pseudo(spell);
    let pt = to.spec_pseudo(spell);
    let i = pf.spec_index_of_delta(d);
    spec_ceil_div((d - pf.spec_offset(i)) * pt.spec_count_at(i), pf.spec_count_at(i)) + pt.spec_offset(i)
}

/// Converts a key stroke delta between the key strokes of two candidates of one chunk.
pub fn convert_between_key_stroke_delta(
    from: &KeyStrokeElementCount,
    to: &KeyStrokeElementCount,
    spell_count: usize,
    from_delta: usize,
) -> (r: usize)
    requires
        convertible(*from, spell_count as int, from_delta as int),
        to.fits_spell(spell_count as int),
    ensures
        r == spec_convert_between(*from, *to, spell_count as int, from_delta as int),
{
    let pseudo_from = from.construct_pseudo_count_of_spell_elements(spell_count);
    let pseudo_to = to.construct_pseudo_count_of_spell_elements(spell_count);
    let i = pseudo_from.spell_elements_index_of_delta(from_delta);
    let offset = pseudo_from.key_stroke_count_offset(i);
    proof {
        assert(offset <= from_delta);
    }
    let in_element = from_delta - offset;
    let from_count = pseudo_from.count_of_spell_elements_index(i);
    let to_count = pseudo_to.count_of_spell_elements_index(i);
    proof {
        assert(bounded(to_count as int));
        assert(in_element * to_count <= 0x8000 * 0x8000) by (nonlinear_arith)
            requires
                in_element < 0x8000,
                to_count < 0x8000,
        ;
    }
    let delta = convert_by_weighted_count(from_count, to_count, in_element);
    proof {
        assert(delta <= in_element * to_count + from_count) by (nonlinear_arith)
            requires
                delta == (in_element * to_count + (from_count - 1)) / (from_count as int),
                from_count > 0,
        ;
    }
    delta + pseudo_to.key_stroke_count_offset(i)
}

/// Converts position deltas given in one target of a chunk into the other targets.
pub struct MultiTargetDeltaConverter {
    base: BaseTarget,
    spell_count: usize,
    ideal_key_stroke_count: KeyStrokeElementCount,
    key_stroke_count: KeyStrokeElementCount,
}

impl MultiTargetDeltaConverter {
    pub closed spec fn spec_base(self) -> BaseTarget {
        self.base
    }

    pub closed spec fn spec_spell_count(self) -> int {
        self.spell_count as int
    }

    pub closed spec fn spec_ideal(self) -> KeyStrokeElementCount {
        self.ideal_key_stroke_count
    }

    pub closed spec fn spec_actual(self) -> KeyStrokeElementCount {
        self.key_stroke_count
    }

    /// The counts fit the spell count, and every element of them has a key stroke.
    pub open spec fn wf(self) -> bool {
        &&& self.spec_ideal().fits_spell(self.spec_spell_count())
        &&& self.spec_actual().fits_spell(self.spec_spell_count())
        &&& positive_counts(self.spec_ideal())
        &&& positive_counts(self.spec_actual())
    }

    /// The converter of these counts towards `base`.
    pub closed spec fn spec_of(
        spell_count: usize,
        ideal_key_stroke_count: KeyStrokeElementCount,
        key_stroke_count: KeyStrokeElementCount,
        base: BaseTarget,
    ) -> Self {
        MultiTargetDeltaConverter { base, spell_count, ideal_key_stroke_count, key_stroke_count }
    }

    pub fn new(
        spell_count: usize,
        ideal_key_stroke_count: KeyStrokeElementCount,
        key_stroke_count: KeyStrokeElementCount,
        base: BaseTarget,
    ) -> (r: Self)
        requires
            ideal_key_stroke_count.fits_spell(spell_count as int),
            key_stroke_count.fits_spell(spell_count as int),
        ensures
            r == Self::spec_of(spell_count, ideal_key_stroke_count, key_stroke_count, base),
            r.spec_base() == base,
            r.spec_spell_count() == spell_count,
            r.spec_ideal() == ideal_key_stroke_count,
            r.spec_actual() == key_stroke_count,
    {
        MultiTargetDeltaConverter { base, spell_count, ideal_key_stroke_count, key_stroke_count }
    }

    /// The chunk delta of every base delta: a position anywhere in the chunk ends it.
    pub fn chunk_delta(&self, base_deltas: &[usize]) -> (r: Vec<usize>)
        ensures
            r@.len() == base_deltas@.len(),
            forall|i: int| 0 <= i < r@.len() ==> r@[i] == 1,
    {
        let mut r: Vec<usize> = Vec::new();
        let mut i: usize = 0;
        while i < base_deltas.len()
            invariant
                i <= base_deltas@.len(),
                r@.len() == i,
                forall|k: int| 0 <= k < r@.len() ==> r@[k] == 1,
            decreases base_deltas@.len() - i,
        {
            r.push(1);
            i = i + 1;
        }
        r
    }

    /// The spell delta of a base delta.
    pub open spec fn spec_spell_delta(self, d: int) -> int {
        match self.spec_base() {
            BaseTarget::Chunk => self.spec_spell_count(),
            BaseTarget::Spell => d,
            BaseTarget::IdealKeyStroke => self.spec_ideal().spec_key_stroke_delta_to_spell_delta(self.spec_spell_count(), d),
            BaseTarget::KeyStroke => self.spec_actual().spec_key_stroke_delta_to_spell_delta(self.spec_spell_count(), d),
        }
    }

    /// The ideal key stroke delta of a base delta.
    pub open spec fn spec_ideal_key_stroke_delta(self, d: int) -> int {
        match self.spec_base() {
            BaseTarget::Chunk => self.spec_ideal().spec_whole_count(),
            BaseTarget::Spell => self.spec_ideal().spec_spell_delta_to_key_stroke_delta(self.spec_spell_count(), d),
            BaseTarget::IdealKeyStroke => d,
            BaseTarget::KeyStroke => spec_convert_between(self.spec_actual(), self.spec_ideal(), self.spec_spell_count(), d),
        }
    }

    /// The key stroke delta of a base delta.
    pub open spec fn spec_key_stroke_delta(self, d: int) -> int {
        match self.spec_base() {
            BaseTarget::Chunk => self.spec_actual().spec_whole_count(),
            BaseTarget::Spell => self.spec_actual().spec_spell_delta_to_key_stroke_delta(self.spec_spell_count(), d),
            BaseTarget::IdealKeyStroke => spec_convert_between(self.spec_ideal(), self.spec_actual(), self.spec_spell_count(), d),
            BaseTarget::KeyStroke => d,
        }
    }

    /// Whether `d` is a position delta of the base target: from one to the target's length.
    pub open spec fn valid_delta(self, d: int) -> bool {
        match self.spec_base() {
            BaseTarget::Chunk => true,
            BaseTarget::Spell => 1 <= d <= self.spec_spell_count(),
            BaseTarget::IdealKeyStroke => 1 <= d <= self.spec_ideal().spec_whole_count(),
            BaseTarget::KeyStroke => 1 <= d <= self.spec_actual().spec_whole_count(),
        }
    }

    /// Converts base deltas into spell deltas.
    pub fn spell_delta(&self, base_deltas: &[usize]) -> (r: Vec<usize>)
        requires
            self.wf(),
            forall|i: int| 0 <= i < base_deltas@.len() ==> self.valid_delta(#[trigger] base_deltas@[i] as int),
        ensures
            r@.len() == base_deltas@.len(),
            forall|i: int| 0 <= i < r@.len() ==> r@[i] == self.spec_spell_delta(#[trigger] base_deltas@[i] as int),
    {
        let mut r: Vec<usize> = Vec::new();
        let mut i: usize = 0;
        while i < base_deltas.len()
            invariant
                self.wf(),
                forall|k: int| 0 <= k < base_deltas@.len() ==> self.valid_delta(#[trigger] base_deltas@[k] as int),
                i <= base_deltas@.len(),
                r@.len() == i,
                forall|k: int| 0 <= k < r@.len() ==> r@[k] == self.spec_spell_delta(#[trigger] base_deltas@[k] as int),
            decreases base_deltas@.len() - i,
        {
            let d = base_deltas[i];
            let v = match self.base {
                BaseTarget::Chunk => self.spell_count,
                BaseTarget::Spell => d,
                BaseTarget::IdealKeyStroke => {
                    proof { lemma_positive_count_at(self.ideal_key_stroke_count, d as int); }
                    self.ideal_key_stroke_count.convert_key_stroke_delta_to_spell_delta(self.spell_count, d)
                },
                BaseTarget::KeyStroke => {
                    proof { lemma_positive_count_at(self.key_stroke_count, d as int); }
                    self.key_stroke_count.convert_key_stroke_delta_to_spell_delta(self.spell_count, d)
                },
            };
            r.push(v);
            i = i + 1;
        }
        r
    }

    /// Converts base deltas into ideal key stroke deltas.
    pub fn ideal_key_stroke_delta(&self, base_deltas: &[usize]) -> (r: Vec<usize>)
        requires
            self.wf(),
            forall|i: int| 0 <= i < base_deltas@.len() ==> self.valid_delta(#[trigger] base_deltas@[i] as int),
        ensures
            r@.len() == base_deltas@.len(),
            forall|i: int| 0 <= i < r@.len() ==> r@[i] == self.spec_ideal_key_stroke_delta(#[trigger] base_deltas@[i] as int),
    {
        let mut r: Vec<usize> = Vec::new();
        let mut i: usize = 0;
        while i < base_deltas.len()
            invariant
                self.wf(),
                forall|k: int| 0 <= k < base_deltas@.len() ==> self.valid_delta(#[trigger] base_deltas@[k] as int),
                i <= base_deltas@.len(),
                r@.len() == i,
                forall|k: int| 0 <= k < r@.len() ==> r@[k] == self.spec_ideal_key_stroke_delta(#[trigger] base_deltas@[k] as int),
            decreases base_deltas@.len() - i,
        {
            let d = base_deltas[i];
            let v = match self.base {
                BaseTarget::Chunk => self.ideal_key_stroke_count.whole_count(),
                BaseTarget::Spell => self.ideal_key_stroke_count.convert_spell_delta_to_key_stroke_delta(self.spell_count, d),
                BaseTarget::IdealKeyStroke => d,
                BaseTarget::KeyStroke => {
                    proof { lemma_pseudo_positive(self.key_stroke_count, self.spell_count as int, d as int); }
                    convert_between_key_stroke_delta(&self.key_stroke_count, &self.ideal_key_stroke_count, self.spell_count, d)
                },
            };
            r.push(v);
            i = i + 1;
        }
        r
    }

    /// Converts base deltas into key stroke deltas.
    pub fn key_stroke_delta(&self, base_deltas: &[usize]) -> (r: Vec<usize>)
        requires
            self.wf(),
            forall|i: int| 0 <= i < base_deltas@.len() ==> self.valid_delta(#[trigger] base_deltas@[i] as int),
        ensures
            r@.len() == base_deltas@.len(),
            forall|i: int| 0 <= i < r@.len() ==> r@[i] == self.spec_key_stroke_delta(#[trigger] base_deltas@[i] as int),
    {
        let mut r: Vec<usize> = Vec::new();
        let mut i: usize = 0;
        while i < base_deltas.len()
            invariant
                self.wf(),
                forall|k: int| 0 <= k < base_deltas@.len() ==> self.valid_delta(#[trigger] base_deltas@[k] as int),
                i <= base_deltas@.len(),
                r@.len() == i,
                forall|k: int| 0 <= k < r@.len() ==> r@[k] == self.spec_key_stroke_delta(#[trigger] base_deltas@[k] as int),
            decreases base_deltas@.len() - i,
        {
            let d = base_deltas[i];
            let v = match self.base {
                BaseTarget::Chunk => self.key_stroke_count.whole_count(),
                BaseTarget::Spell => self.key_stroke_count.convert_spell_delta_to_key_stroke_delta(self.spell_count, d),
                BaseTarget::IdealKeyStroke => {
                    proof { lemma_pseudo_positive(self.ideal_key_stroke_count, self.spell_count as int, d as int); }
                    convert_between_key_stroke_delta(&self.ideal_key_stroke_count, &self.key_stroke_count, self.spell_count, d)
                },
                BaseTarget::KeyStroke => d,
            };
            r.push(v);
            i = i + 1;
        }
        r
    }
}

/// The element which a positive delta falls in has a key stroke.
proof fn lemma_positive_count_at(c: KeyStrokeElementCount, d: int)
    requires
        positive_counts(c),
        1 <= d <= c.spec_whole_count(),
    ensures
        c.spec_count_at(c.spec_index_of_delta(d)) > 0,
{
}

/// A positive delta is convertible when every element has a key stroke, except that a single
/// key stroke typing two spell characters at once is divided into an empty first half.
pub proof fn lemma_pseudo_positive(c: KeyStrokeElementCount, spell: int, d: int)
    requires
        positive_counts(c),
        c.fits_spell(spell),
        1 <= d <= c.spec_whole_count(),
    ensures
        convertible(c, spell, d),
{
}

/// Returns whether every key stroke element of the counts has a key stroke.
pub fn has_positive_counts(c: &KeyStrokeElementCount) -> (r: bool)
    ensures
        r == positive_counts(*c),
{
    match c {
        KeyStrokeElementCount::Sigle(n) => *n > 0,
        KeyStrokeElementCount::Double((a, b)) => *a > 0 && *b > 0,
    }
}

/// Returns whether the counts fit a chunk of `spell` characters and stay bounded.
pub fn counts_fit_spell(c: &KeyStrokeElementCount, spell: usize) -> (r: bool)
    ensures
        r == c.fits_spell(spell as int),
{
    let whole_bounded = match c {
        KeyStrokeElementCount::Sigle(n) => *n < 0x8000,
        KeyStrokeElementCount::Double((a, b)) => *a < 0x8000 && *b < 0x8000 && *a + *b < 0x8000,
    };
    (spell == 1 || spell == 2) && (!c.is_double() || spell == 2) && whole_bounded
}

} // verus!
