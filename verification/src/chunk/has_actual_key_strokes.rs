//! What the actual key strokes typed for a chunk say: which were wrong, for which key stroke
//! position and spell element, and where spell elements end.
use vstd::prelude::*;

use super::key_stroke_candidate::ChunkKeyStrokeCandidate;
use super::{ChunkElementIndex, ChunkSpell};
use crate::key_stroke::ActualKeyStroke;
use crate::statistics::multi_target_position_convert::{
    convert_between_key_stroke_delta, convertible, positive_counts, spec_convert_between,
};

verus! {

/// Number of correct key strokes in `s`.
pub open spec fn correct_count(s: Seq<ActualKeyStroke>) -> nat
    decreases s.len(),
{
    if s.len() == 0 {
        0
    } else {
        correct_count(s.drop_last()) + if s.last().spec_is_correct() {
            1nat
        } else {
            0nat
        }
    }
}

/// The wrong key strokes typed while the correct key stroke at index `k` was expected, in
/// order.
pub open spec fn wrong_for_index(s: Seq<ActualKeyStroke>, k: int) -> Seq<ActualKeyStroke>
    decreases s.len(),
{
    if s.len() == 0 {
        Seq::empty()
    } else {
        let prev = wrong_for_index(s.drop_last(), k);
        if !s.last().spec_is_correct() && correct_count(s.drop_last()) == k {
            prev.push(s.last())
        } else {
            prev
        }
    }
}

/// The numbers of wrong key strokes before each correct key stroke, with the number of wrong
/// key strokes after the last correct one.
pub open spec fn wrong_counts_state(s: Seq<ActualKeyStroke>) -> (Seq<int>, int)
    decreases s.len(),
{
    if s.len() == 0 {
        (Seq::empty(), 0)
    } else {
        let (v, w) = wrong_counts_state(s.drop_last());
        if s.last().spec_is_correct() {
            (v.push(w), 0)
        } else {
            (v, w + 1)
        }
    }
}

/// The number of wrong key strokes before each correct key stroke.
pub open spec fn wrong_counts(s: Seq<ActualKeyStroke>) -> Seq<int> {
    wrong_counts_state(s).0
}

/// Returns the wrong key strokes typed while the correct key stroke at `key_stroke_index` was
/// expected.
pub fn wrong_key_strokes_for_correct_key_stroke_index(
    actual_key_strokes: &[ActualKeyStroke],
    key_stroke_index: usize,
) -> (r: Vec<ActualKeyStroke>)
    ensures
        r@ == wrong_for_index(actual_key_strokes@, key_stroke_index as int),
{
    let mut r: Vec<ActualKeyStroke> = Vec::new();
    let mut correct: usize = 0;
    let mut i: usize = 0;
    while i < actual_key_strokes.len()
        invariant
            i <= actual_key_strokes@.len(),
            correct == correct_count(actual_key_strokes@.take(i as int)),
            correct <= i,
            r@ == wrong_for_index(actual_key_strokes@.take(i as int), key_stroke_index as int),
        decreases actual_key_strokes@.len() - i,
    {
        let ks = actual_key_strokes[i];
        proof {
            assert(actual_key_strokes@.take(i + 1).drop_last() == actual_key_strokes@.take(i as int));
        }
        if ks.is_correct() {
            correct = correct + 1;
        } else if correct == key_stroke_index {
            r.push(ks);
        }
        i = i + 1;
    }
    assert(actual_key_strokes@.take(i as int) == actual_key_strokes@);
    r
}

/// Returns the number of wrong key strokes before each correct key stroke.
pub fn wrong_key_stroke_count_of_key_stroke_index(actual_key_strokes: &[ActualKeyStroke]) -> (r: Vec<usize>)
    ensures
        r@.len() == wrong_counts(actual_key_strokes@).len(),
        forall|k: int| 0 <= k < r@.len() ==> r@[k] == wrong_counts(actual_key_strokes@)[k],
        r@.len() == correct_count(actual_key_strokes@),
{
    let mut r: Vec<usize> = Vec::new();
    let mut wrong: usize = 0;
    let mut i: usize = 0;
    while i < actual_key_strokes.len()
        invariant
            i <= actual_key_strokes@.len(),
            wrong <= i,
            wrong_counts_state(actual_key_strokes@.take(i as int)).1 == wrong,
            r@.len() == wrong_counts_state(actual_key_strokes@.take(i as int)).0.len(),
            r@.len() == correct_count(actual_key_strokes@.take(i as int)),
            forall|k: int| 0 <= k < r@.len() ==> r@[k] == wrong_counts_state(actual_key_strokes@.take(i as int)).0[k],
            forall|k: int| 0 <= k < r@.len() ==> r@[k] <= i,
        decreases actual_key_strokes@.len() - i,
    {
        proof {
            assert(actual_key_strokes@.take(i + 1).drop_last() == actual_key_strokes@.take(i as int));
        }
        if actual_key_strokes[i].is_correct() {
            r.push(wrong);
            wrong = 0;
        } else {
            wrong = wrong + 1;
        }
        i = i + 1;
    }
    assert(actual_key_strokes@.take(i as int) == actual_key_strokes@);
    r
}

/// The positions, shifted by `offset`, of the entries of `counts` which are positive.
pub open spec fn positive_positions(counts: Seq<int>, offset: int) -> Seq<int>
    decreases counts.len(),
{
    if counts.len() == 0 {
        Seq::empty()
    } else {
        let prev = positive_positions(counts.drop_last(), offset);
        if counts.last() > 0 {
            prev.push(counts.len() - 1 + offset)
        } else {
            prev
        }
    }
}

/// Returns the positions, shifted by `offset`, of the correct key strokes before which a
/// wrong key stroke was typed.
pub fn wrong_key_stroke_positions(actual_key_strokes: &[ActualKeyStroke], offset: usize) -> (r: Vec<usize>)
    requires
        offset + actual_key_strokes@.len() <= usize::MAX,
    ensures
        r@.len() == positive_positions(wrong_counts(actual_key_strokes@), offset as int).len(),
        forall|k: int| 0 <= k < r@.len() ==> r@[k] == positive_positions(wrong_counts(actual_key_strokes@), offset as int)[k],
{
    let counts = wrong_key_stroke_count_of_key_stroke_index(actual_key_strokes);
    let ghost c = wrong_counts(actual_key_strokes@);
    proof {
        lemma_correct_count_le(actual_key_strokes@);
    }
    let mut r: Vec<usize> = Vec::new();
    let mut i: usize = 0;
    while i < counts.len()
        invariant
            c == wrong_counts(actual_key_strokes@),
            counts@.len() == c.len(),
            counts@.len() <= actual_key_strokes@.len(),
            offset + actual_key_strokes@.len() <= usize::MAX,
            forall|k: int| 0 <= k < counts@.len() ==> counts@[k] == c[k],
            i <= counts@.len(),
            r@.len() == positive_positions(c.take(i as int), offset as int).len(),
            forall|k: int| 0 <= k < r@.len() ==> r@[k] == positive_positions(c.take(i as int), offset as int)[k],
        decreases counts@.len() - i,
    {
        proof {
            assert(c.take(i + 1).drop_last() == c.take(i as int));
        }
        if counts[i] > 0 {
            r.push(i + offset);
        }
        i = i + 1;
    }
    assert(c.take(i as int) == c);
    r
}

/// The number of correct key strokes is at most the number of key strokes.
pub proof fn lemma_correct_count_le(s: Seq<ActualKeyStroke>)
    ensures
        correct_count(s) <= s.len(),
        wrong_counts(s).len() == correct_count(s),
    decreases s.len(),
{
    if s.len() > 0 {
        lemma_correct_count_le(s.drop_last());
    }
}

/// The sum of the entries of `counts` at key stroke indexes belonging to the element `e` of
/// the candidate.
pub open spec fn element_wrong_sum(counts: Seq<int>, candidate: ChunkKeyStrokeCandidate, e: ChunkElementIndex) -> int
    decreases counts.len(),
{
    if counts.len() == 0 {
        0
    } else {
        element_wrong_sum(counts.drop_last(), candidate, e) + if candidate.spec_key_stroke().spec_belonging_element(
            counts.len() - 1,
        ) == Some(e) {
            counts.last()
        } else {
            0
        }
    }
}

/// The sum of the entries of `c`.
pub open spec fn seq_sum(c: Seq<int>) -> int
    decreases c.len(),
{
    if c.len() == 0 {
        0
    } else {
        seq_sum(c.drop_last()) + c.last()
    }
}

/// The wrong key strokes counted before correct key strokes, and after the last one, are at
/// most all key strokes.
pub proof fn lemma_wrong_counts_sum(s: Seq<ActualKeyStroke>)
    ensures
        seq_sum(wrong_counts(s)) + wrong_counts_state(s).1 <= s.len(),
        wrong_counts_state(s).1 >= 0,
        forall|k: int| 0 <= k < wrong_counts(s).len() ==> wrong_counts(s)[k] >= 0,
    decreases s.len(),
{
    if s.len() > 0 {
        lemma_wrong_counts_sum(s.drop_last());
        let (v, w) = wrong_counts_state(s.drop_last());
        if s.last().spec_is_correct() {
            assert(v.push(w).drop_last() == v);
        }
    }
}

/// A prefix of non-negative entries sums to at most the whole sum.
pub proof fn lemma_prefix_sum_le(c: Seq<int>, i: int)
    requires
        0 <= i <= c.len(),
        forall|k: int| 0 <= k < c.len() ==> c[k] >= 0,
    ensures
        seq_sum(c.take(i)) <= seq_sum(c),
    decreases c.len() - i,
{
    if i < c.len() {
        assert(c.take(i + 1).drop_last() == c.take(i));
        lemma_prefix_sum_le(c, i + 1);
    } else {
        assert(c.take(i) == c);
    }
}

/// The sum over one element is at most the whole sum, for non-negative entries.
pub proof fn lemma_element_sum_le(c: Seq<int>, candidate: ChunkKeyStrokeCandidate, e: ChunkElementIndex)
    requires
        forall|k: int| 0 <= k < c.len() ==> c[k] >= 0,
    ensures
        0 <= element_wrong_sum(c, candidate, e) <= seq_sum(c),
    decreases c.len(),
{
    if c.len() > 0 {
        lemma_element_sum_le(c.drop_last(), candidate, e);
    }
}

/// Returns the number of wrong key strokes typed before the correct key strokes which belong
/// to the element `element_index` of the effective candidate.
pub fn wrong_key_stroke_count_of_element_index(
    actual_key_strokes: &[ActualKeyStroke],
    effective_candidate: &ChunkKeyStrokeCandidate,
    element_index: ChunkElementIndex,
) -> (r: usize)
    requires
        effective_candidate.wf(),
    ensures
        r == element_wrong_sum(wrong_counts(actual_key_strokes@), *effective_candidate, element_index),
{
    let counts = wrong_key_stroke_count_of_key_stroke_index(actual_key_strokes);
    let ghost c = wrong_counts(actual_key_strokes@);
    proof {
        lemma_wrong_counts_sum(actual_key_strokes@);
    }
    let total = actual_key_strokes.len();
    let mut sum: usize = 0;
    let mut i: usize = 0;
    while i < counts.len()
        invariant
            effective_candidate.wf(),
            c == wrong_counts(actual_key_strokes@),
            counts@.len() == c.len(),
            forall|k: int| 0 <= k < counts@.len() ==> counts@[k] == c[k],
            forall|k: int| 0 <= k < c.len() ==> c[k] >= 0,
            seq_sum(c) <= total,
            i <= counts@.len(),
            sum == element_wrong_sum(c.take(i as int), *effective_candidate, element_index),
        decreases counts@.len() - i,
    {
        proof {
            assert(c.take(i + 1).drop_last() == c.take(i as int));
            lemma_element_sum_le(c.take(i + 1), *effective_candidate, element_index);
            lemma_prefix_sum_le(c, i + 1);
        }
        let belongs = match effective_candidate.belonging_element_index_of_key_stroke(i) {
            Some(e) => e == element_index,
            None => false,
        };
        proof {
            assert(c.take(i + 1).last() == c[i as int]);
            assert(element_wrong_sum(c.take(i + 1), *effective_candidate, element_index) == sum + if belongs {
                c[i as int]
            } else {
                0
            });
            assert(element_wrong_sum(c.take(i + 1), *effective_candidate, element_index) <= seq_sum(c.take(i + 1)));
            assert(seq_sum(c.take(i + 1)) <= seq_sum(c));
        }
        if belongs {
            sum = sum + counts[i];
        }
        i = i + 1;
    }
    assert(c.take(i as int) == c);
    sum
}

/// The wrong key strokes typed while a key stroke of the element `e` of the candidate was
/// expected.
pub open spec fn wrong_of_element(s: Seq<ActualKeyStroke>, candidate: ChunkKeyStrokeCandidate, e: ChunkElementIndex) -> Seq<ActualKeyStroke>
    decreases s.len(),
{
    if s.len() == 0 {
        Seq::empty()
    } else {
        let prev = wrong_of_element(s.drop_last(), candidate, e);
        if !s.last().spec_is_correct() && candidate.spec_key_stroke().spec_belonging_element(
            correct_count(s.drop_last()) as int,
        ) == Some(e) {
            prev.push(s.last())
        } else {
            prev
        }
    }
}

/// Returns the wrong key strokes typed while a key stroke of the element `element_index` of
/// the effective candidate was expected.
pub fn wrong_key_strokes_of_element_index(
    actual_key_strokes: &[ActualKeyStroke],
    effective_candidate: &ChunkKeyStrokeCandidate,
    element_index: ChunkElementIndex,
) -> (r: Vec<ActualKeyStroke>)
    requires
        effective_candidate.wf(),
    ensures
        r@ == wrong_of_element(actual_key_strokes@, *effective_candidate, element_index),
{
    let mut r: Vec<ActualKeyStroke> = Vec::new();
    let mut correct: usize = 0;
    let mut i: usize = 0;
    while i < actual_key_strokes.len()
        invariant
            effective_candidate.wf(),
            i <= actual_key_strokes@.len(),
            correct == correct_count(actual_key_strokes@.take(i as int)),
            correct <= i,
            r@ == wrong_of_element(actual_key_strokes@.take(i as int), *effective_candidate, element_index),
        decreases actual_key_strokes@.len() - i,
    {
        let ks = actual_key_strokes[i];
        proof {
            assert(actual_key_strokes@.take(i + 1).drop_last() == actual_key_strokes@.take(i as int));
        }
        if ks.is_correct() {
            correct = correct + 1;
        } else {
            let belongs = match effective_candidate.belonging_element_index_of_key_stroke(correct) {
                Some(e) => e == element_index,
                None => false,
            };
            if belongs {
                r.push(ks);
            }
        }
        i = i + 1;
    }
    assert(actual_key_strokes@.take(i as int) == actual_key_strokes@);
    r
}

/// Some correct key stroke before which a wrong key stroke was typed belongs to an element at
/// position `p` of the candidate.
pub open spec fn has_wrong_element_at(s: Seq<ActualKeyStroke>, candidate: ChunkKeyStrokeCandidate, p: int) -> bool {
    exists|k: int|
        0 <= k < wrong_counts(s).len() && wrong_counts(s)[k] > 0 && (#[trigger] candidate.spec_key_stroke().spec_belonging_element(k)) is Some
            && candidate.spec_key_stroke().spec_belonging_element(k)->0.spec_position() == p
}

/// The positions, shifted by `offset`, of the spell elements with wrong key strokes, in
/// increasing order.
pub open spec fn spec_wrong_spell_element_positions(s: Seq<ActualKeyStroke>, candidate: ChunkKeyStrokeCandidate, offset: int) -> Seq<int> {
    (if has_wrong_element_at(s, candidate, 0) { seq![offset] } else { Seq::empty() }) + (if has_wrong_element_at(s, candidate, 1) {
        seq![offset + 1]
    } else {
        Seq::empty()
    })
}

/// Returns the positions, shifted by `offset`, of the spell elements of the effective
/// candidate for which a wrong key stroke was typed, each once and in increasing order.
pub fn wrong_spell_element_positions(
    actual_key_strokes: &[ActualKeyStroke],
    effective_candidate: &ChunkKeyStrokeCandidate,
    offset: usize,
) -> (r: Vec<usize>)
    requires
        effective_candidate.wf(),
        offset + 1 <= usize::MAX,
    ensures
        r@.len() == spec_wrong_spell_element_positions(actual_key_strokes@, *effective_candidate, offset as int).len(),
        forall|k: int| 0 <= k < r@.len() ==> r@[k] == spec_wrong_spell_element_positions(actual_key_strokes@, *effective_candidate, offset as int)[k],
{
    let counts = wrong_key_stroke_count_of_key_stroke_index(actual_key_strokes);
    let ghost c = wrong_counts(actual_key_strokes@);
    let mut first = false;
    let mut second = false;
    let mut i: usize = 0;
    while i < counts.len()
        invariant
            effective_candidate.wf(),
            c == wrong_counts(actual_key_strokes@),
            counts@.len() == c.len(),
            forall|k: int| 0 <= k < counts@.len() ==> counts@[k] == c[k],
            i <= counts@.len(),
            first == exists|k: int|
                0 <= k < i && c[k] > 0 && (#[trigger] effective_candidate.spec_key_stroke().spec_belonging_element(k)) is Some
                    && effective_candidate.spec_key_stroke().spec_belonging_element(k)->0.spec_position() == 0,
            second == exists|k: int|
                0 <= k < i && c[k] > 0 && (#[trigger] effective_candidate.spec_key_stroke().spec_belonging_element(k)) is Some
                    && effective_candidate.spec_key_stroke().spec_belonging_element(k)->0.spec_position() == 1,
        decreases counts@.len() - i,
    {
        if counts[i] > 0 {
            match effective_candidate.belonging_element_index_of_key_stroke(i) {
                Some(e) => {
                    if e.into_absolute_index(0) == 0 {
                        first = true;
                    } else {
                        second = true;
                    }
                },
                None => {},
            }
        }
        i = i + 1;
    }
    let mut r: Vec<usize> = Vec::new();
    if first {
        r.push(offset);
    }
    if second {
        r.push(offset + 1);
    }
    r
}

/// The positions of wrong spell characters: a wrong key stroke for two spell characters
/// typed at once marks both of them.
pub open spec fn spec_wrong_spell_positions(
    s: Seq<ActualKeyStroke>,
    candidate: ChunkKeyStrokeCandidate,
    spell: ChunkSpell,
    offset: int,
) -> Seq<int> {
    let e = spec_wrong_spell_element_positions(s, candidate, 0);
    if e.len() == 0 {
        Seq::empty()
    } else if e.len() == 1 {
        if spell is DoubleChar {
            if candidate.spec_key_stroke() is DoubleSplitted {
                seq![e[0] + offset]
            } else {
                seq![offset, offset + 1]
            }
        } else {
            seq![offset]
        }
    } else {
        seq![offset, offset + 1]
    }
}

/// Returns the positions, shifted by `offset`, of the spell characters for which a wrong key
/// stroke was typed.
pub fn wrong_spell_positions(
    actual_key_strokes: &[ActualKeyStroke],
    effective_candidate: &ChunkKeyStrokeCandidate,
    spell: &ChunkSpell,
    offset: usize,
) -> (r: Vec<usize>)
    requires
        effective_candidate.wf(),
        offset + 1 <= usize::MAX,
    ensures
        r@.len() == spec_wrong_spell_positions(actual_key_strokes@, *effective_candidate, *spell, offset as int).len(),
        forall|k: int| 0 <= k < r@.len() ==> r@[k] == spec_wrong_spell_positions(actual_key_strokes@, *effective_candidate, *spell, offset as int)[k],
{
    let e = wrong_spell_element_positions(actual_key_strokes, effective_candidate, 0);
    let ghost es = spec_wrong_spell_element_positions(actual_key_strokes@, *effective_candidate, 0);
    assert(es.len() <= 2);
    let mut r: Vec<usize> = Vec::new();
    if e.len() == 0 {
    } else if e.len() == 1 {
        if spell.is_double_char() {
            if effective_candidate.key_stroke().is_double_splitted() {
                r.push(e[0] + offset);
            } else {
                r.push(offset);
                r.push(offset + 1);
            }
        } else {
            r.push(offset);
        }
    } else {
        r.push(offset);
        r.push(offset + 1);
    }
    r
}

/// How many spell characters a key stroke of the candidate stands for: one when the two
/// characters of a chunk are typed separately, otherwise the chunk's spell count.
pub open spec fn spec_effective_spell_count(candidate: ChunkKeyStrokeCandidate, spell: ChunkSpell) -> int {
    if candidate.spec_key_stroke() is DoubleSplitted {
        1
    } else {
        spell.spec_count()
    }
}

/// Returns how many spell characters a key stroke of the effective candidate stands for.
pub fn effective_spell_count(effective_candidate: &ChunkKeyStrokeCandidate, spell: &ChunkSpell) -> (r: usize)
    ensures
        r == spec_effective_spell_count(*effective_candidate, *spell),
{
    if effective_candidate.key_stroke().is_double_splitted() {
        1
    } else {
        spell.count()
    }
}

/// For each key stroke, whether it is a correct key stroke ending a spell element and, if so,
/// how many spell characters end there.
pub open spec fn spec_spell_end_vector(s: Seq<ActualKeyStroke>, candidate: ChunkKeyStrokeCandidate, spell: ChunkSpell) -> Seq<Option<usize>> {
    Seq::new(
        s.len(),
        |i: int|
            if s[i].spec_is_correct() && candidate.spec_key_stroke().spec_is_element_end(correct_count(s.take(i)) as int) == Some(true) {
                Some(spec_effective_spell_count(candidate, spell) as usize)
            } else {
                None
            },
    )
}

/// Returns, for each actual key stroke, the number of spell characters it ends, if it is a
/// correct key stroke which ends an element of the effective candidate.
pub fn construct_spell_end_vector(
    actual_key_strokes: &[ActualKeyStroke],
    effective_candidate: &ChunkKeyStrokeCandidate,
    spell: &ChunkSpell,
) -> (r: Vec<Option<usize>>)
    requires
        effective_candidate.wf(),
    ensures
        r@ == spec_spell_end_vector(actual_key_strokes@, *effective_candidate, *spell),
{
    let count = effective_spell_count(effective_candidate, spell);
    let mut r: Vec<Option<usize>> = Vec::new();
    let mut correct: usize = 0;
    let mut i: usize = 0;
    while i < actual_key_strokes.len()
        invariant
            effective_candidate.wf(),
            count == spec_effective_spell_count(*effective_candidate, *spell),
            i <= actual_key_strokes@.len(),
            correct == correct_count(actual_key_strokes@.take(i as int)),
            correct <= i,
            r@.len() == i,
            forall|k: int| 0 <= k < i ==> r@[k] == spec_spell_end_vector(actual_key_strokes@, *effective_candidate, *spell)[k],
        decreases actual_key_strokes@.len() - i,
    {
        proof {
            assert(actual_key_strokes@.take(i + 1).drop_last() == actual_key_strokes@.take(i as int));
        }
        if actual_key_strokes[i].is_correct() {
            let is_end = match effective_candidate.is_element_end_at_key_stroke_index(correct) {
                Some(b) => b,
                None => false,
            };
            if is_end {
                r.push(Some(count));
            } else {
                r.push(None);
            }
            correct = correct + 1;
        } else {
            r.push(None);
        }
        i = i + 1;
    }
    assert(r@ == spec_spell_end_vector(actual_key_strokes@, *effective_candidate, *spell));
    r
}

/// `v` extended with zeros to length `n`.
pub open spec fn padded(v: Seq<int>, n: int) -> Seq<int> {
    if v.len() >= n {
        v
    } else {
        v + Seq::new((n - v.len()) as nat, |i: int| 0int)
    }
}

/// The wrong key stroke counts of the first key strokes, gathered by the ideal key stroke
/// position each key stroke position corresponds to.
pub open spec fn ideal_wrong_counts(
    counts: Seq<int>,
    from: crate::chunk::key_stroke_candidate::KeyStrokeElementCount,
    to: crate::chunk::key_stroke_candidate::KeyStrokeElementCount,
    spell: int,
) -> Seq<int>
    decreases counts.len(),
{
    if counts.len() == 0 {
        Seq::empty()
    } else {
        let v = ideal_wrong_counts(counts.drop_last(), from, to, spell);
        let idx = spec_convert_between(from, to, spell, counts.len() as int) - 1;
        let p = padded(v, idx + 1);
        p.update(idx, p[idx] + counts.last())
    }
}

/// Returns the numbers of wrong key strokes gathered by ideal key stroke positions: the wrong
/// key strokes before the key stroke at a position of the effective candidate count for the
/// corresponding position of the ideal candidate.
pub fn wrong_key_stroke_count_of_ideal_key_stroke_index(
    actual_key_strokes: &[ActualKeyStroke],
    effective_candidate: &ChunkKeyStrokeCandidate,
    ideal_candidate: &ChunkKeyStrokeCandidate,
    spell: &ChunkSpell,
) -> (r: Vec<usize>)
    requires
        effective_candidate.wf(),
        ideal_candidate.wf(),
        correct_count(actual_key_strokes@) <= effective_candidate.spec_whole().len(),
        positive_counts(effective_candidate.spec_key_stroke().spec_element_count()),
        positive_counts(ideal_candidate.spec_key_stroke().spec_element_count().spec_pseudo(spell.spec_count())),
        effective_candidate.spec_key_stroke().spec_element_count().fits_spell(spell.spec_count()),
        ideal_candidate.spec_key_stroke().spec_element_count().fits_spell(spell.spec_count()),
    ensures
        r@.len() == ideal_wrong_counts(
            wrong_counts(actual_key_strokes@),
            effective_candidate.spec_key_stroke().spec_element_count(),
            ideal_candidate.spec_key_stroke().spec_element_count(),
            spell.spec_count(),
        ).len(),
        forall|k: int| 0 <= k < r@.len() ==> r@[k] == ideal_wrong_counts(
            wrong_counts(actual_key_strokes@),
            effective_candidate.spec_key_stroke().spec_element_count(),
            ideal_candidate.spec_key_stroke().spec_element_count(),
            spell.spec_count(),
        )[k],
{
    let counts = wrong_key_stroke_count_of_key_stroke_index(actual_key_strokes);
    let ghost c = wrong_counts(actual_key_strokes@);
    proof {
        lemma_wrong_counts_sum(actual_key_strokes@);
        lemma_correct_count_le(actual_key_strokes@);
    }
    let total = actual_key_strokes.len();
    let from = effective_candidate.construct_key_stroke_element_count();
    let to = ideal_candidate.construct_key_stroke_element_count();
    let spell_count = spell.count();
    let mut r: Vec<usize> = Vec::new();
    let mut i: usize = 0;
    while i < counts.len()
        invariant
            c == wrong_counts(actual_key_strokes@),
            counts@.len() == c.len(),
            forall|k: int| 0 <= k < counts@.len() ==> counts@[k] == c[k],
            forall|k: int| 0 <= k < c.len() ==> c[k] >= 0,
            seq_sum(c) <= total,
            c.len() <= from.spec_whole_count(),
            from == effective_candidate.spec_key_stroke().spec_element_count(),
            to == ideal_candidate.spec_key_stroke().spec_element_count(),
            spell_count == spell.spec_count(),
            positive_counts(from),
            positive_counts(to.spec_pseudo(spell_count as int)),
            from.fits_spell(spell_count as int),
            to.fits_spell(spell_count as int),
            i <= counts@.len(),
            r@.len() == ideal_wrong_counts(c.take(i as int), from, to, spell_count as int).len(),
            forall|k: int| 0 <= k < r@.len() ==> r@[k] == ideal_wrong_counts(c.take(i as int), from, to, spell_count as int)[k],
            forall|k: int| 0 <= k < r@.len() ==> r@[k] <= seq_sum(c.take(i as int)),
            r@.len() <= 0x8000,
        decreases counts@.len() - i,
    {
        proof {
            assert(c.take(i + 1).drop_last() == c.take(i as int));
            assert(c.take(i + 1).last() == c[i as int]);
            lemma_prefix_sum_le(c, i + 1);
            lemma_prefix_sum_le(c.take(i + 1), i as int);
            assert(c.take(i + 1).take(i as int) == c.take(i as int));
            lemma_convert_positive(from, to, spell_count as int, i + 1);
            lemma_element_sum_le(c.take(i as int), *effective_candidate, ChunkElementIndex::OnlyFirst);
        }
        let converted = convert_between_key_stroke_delta(&from, &to, spell_count, i + 1);
        let idx = converted - 1;
        let ghost before = ideal_wrong_counts(c.take(i as int), from, to, spell_count as int);
        while r.len() <= idx
            invariant
                r@.len() <= idx + 1 || r@.len() == before.len(),
                r@.len() >= before.len(),
                forall|k: int| 0 <= k < r@.len() ==> r@[k] == padded(before, r@.len() as int)[k],
                forall|k: int| 0 <= k < r@.len() ==> r@[k] <= seq_sum(c.take(i as int)),
                seq_sum(c.take(i as int)) >= 0,
            decreases idx + 1 - r@.len(),
        {
            r.push(0);
        }
        let old_value = r[idx];
        r.set(idx, old_value + counts[i]);
        proof {
            let p = padded(before, idx + 1);
            assert(ideal_wrong_counts(c.take(i + 1), from, to, spell_count as int) == p.update(idx as int, p[idx as int] + c[i as int]));
            assert(r@.len() == p.len());
            assert forall|k: int| 0 <= k < r@.len() implies r@[k] == p.update(idx as int, p[idx as int] + c[i as int])[k] by {}
        }
        i = i + 1;
    }
    assert(c.take(i as int) == c);
    r
}

/// A converted positive delta is positive and bounded.
proof fn lemma_convert_positive(
    from: crate::chunk::key_stroke_candidate::KeyStrokeElementCount,
    to: crate::chunk::key_stroke_candidate::KeyStrokeElementCount,
    spell: int,
    d: int,
)
    requires
        positive_counts(from),
        positive_counts(to.spec_pseudo(spell)),
        from.fits_spell(spell),
        to.fits_spell(spell),
        1 <= d <= from.spec_whole_count(),
    ensures
        convertible(from, spell, d),
        1 <= spec_convert_between(from, to, spell, d) <= 0x8000,
{
    let pf = from.spec_pseudo(spell);
    let pt = to.spec_pseudo(spell);
    let i = pf.spec_index_of_delta(d);
    crate::statistics::multi_target_position_convert::lemma_pseudo_positive(from, spell, d);
    let a = d - pf.spec_offset(i);
    let b = pt.spec_count_at(i);
    let f = pf.spec_count_at(i);
    assert(1 <= a <= f);
    assert(b >= 1);
    assert((a * b + (f - 1)) / f >= 1 && (a * b + (f - 1)) / f <= b) by (nonlinear_arith)
        requires
            1 <= a <= f,
            b >= 1,
    ;
    assert(pt.spec_count_at(i) + pt.spec_offset(i) <= pt.spec_whole_count());
}

} // verus!
