//! The chunk being typed: its remaining candidates, the key strokes typed for it and the key
//! strokes held back while it may be confirmed by the next chunk.
use vstd::prelude::*;

use super::confirmed::ChunkConfirmed;
use super::has_actual_key_strokes as hak;
use super::key_stroke_candidate::{
    all_wf, is_min_candidate_index, meets_head, min_candidate_index, ChunkKeyStrokeCandidate,
};
use super::{spec_valid_chunk_spell, ChunkElementIndex, ChunkSpell};
use crate::key_stroke::{ActualKeyStroke, KeyStrokeChar};
use crate::primitives::Duration;
use crate::spell::SpellString;
use crate::statistics::statistical_event::{ChunkSpellCursorPosition, SpellFinishedContext};

verus! {

/// The chunk being typed.
#[derive(Debug, Clone, PartialEq, Eq, Hash)]
pub struct ChunkInflight {
    spell: ChunkSpell,
    /// Candidates which the key strokes typed so far still match.
    key_stroke_candidates: Vec<ChunkKeyStrokeCandidate>,
    /// Candidates ruled out, in the order they were ruled out.
    inactive_key_stroke_candidates: Vec<ChunkKeyStrokeCandidate>,
    /// The candidate shortest to type when key strokes were assigned.
    ideal_candidate: ChunkKeyStrokeCandidate,
    /// Key strokes typed for this chunk, wrong ones included.
    actual_key_strokes: Vec<ActualKeyStroke>,
    /// Position of the next key stroke in the candidates.
    key_stroke_cursor_position: usize,
    /// Key strokes typed after a candidate which the next chunk may confirm was finished;
    /// they belong to this chunk or to the next one.
    pending_key_strokes: Vec<ActualKeyStroke>,
}

/// Whether `idx` lists `i`.
pub open spec fn lists(idx: Seq<usize>, i: int) -> bool {
    exists|k: int| 0 <= k < idx.len() && idx[k] == i
}

/// The candidates of `s` whose indexes are listed in `idx` (when `keep`) or not listed (when
/// not `keep`), in their order.
pub open spec fn select_by(s: Seq<ChunkKeyStrokeCandidate>, idx: Seq<usize>, keep: bool) -> Seq<ChunkKeyStrokeCandidate>
    decreases s.len(),
{
    if s.len() == 0 {
        Seq::empty()
    } else {
        let p = select_by(s.drop_last(), idx, keep);
        if lists(idx, s.len() - 1) == keep {
            p.push(s.last())
        } else {
            p
        }
    }
}

/// The first of the first `n` candidates which may be confirmed by the next chunk and is
/// typed to its end at `cursor`.
pub open spec fn first_delayed(s: Seq<ChunkKeyStrokeCandidate>, cursor: int, n: int) -> Option<int>
    decreases n,
{
    if n <= 0 {
        None
    } else {
        match first_delayed(s, cursor, n - 1) {
            Some(x) => Some(x),
            None => if s[n - 1].spec_delayed() is Some && cursor == s[n - 1].spec_whole().len() {
                Some(n - 1)
            } else {
                None
            },
        }
    }
}

/// Once found, the first delayed confirmable candidate stays the first one.
pub proof fn lemma_first_delayed_stable(s: Seq<ChunkKeyStrokeCandidate>, cursor: int, n: int, m: int)
    requires
        0 < n <= m,
        first_delayed(s, cursor, n) is Some,
    ensures
        first_delayed(s, cursor, m) == first_delayed(s, cursor, n),
    decreases m - n,
{
    if m > n {
        lemma_first_delayed_stable(s, cursor, n, m - 1);
    }
}

/// The first delayed confirmable candidate is one, and none before it is.
pub proof fn lemma_first_delayed(s: Seq<ChunkKeyStrokeCandidate>, cursor: int, n: int)
    requires
        0 <= n <= s.len(),
    ensures
        first_delayed(s, cursor, n) matches Some(i) ==> 0 <= i < n && s[i].spec_delayed() is Some && cursor == s[i].spec_whole().len(),
        first_delayed(s, cursor, n) matches Some(i) ==> forall|j: int| 0 <= j < i ==> !(s[j].spec_delayed() is Some && cursor == s[j].spec_whole().len()),
        first_delayed(s, cursor, n) is None ==> forall|j: int| 0 <= j < n ==> !(s[j].spec_delayed() is Some && cursor == s[j].spec_whole().len()),
    decreases n,
{
    if n > 0 {
        lemma_first_delayed(s, cursor, n - 1);
    }
}

impl ChunkInflight {
    pub closed spec fn spec_spell(self) -> ChunkSpell {
        self.spell
    }

    pub closed spec fn spec_candidates(self) -> Seq<ChunkKeyStrokeCandidate> {
        self.key_stroke_candidates@
    }

    pub closed spec fn spec_inactive(self) -> Seq<ChunkKeyStrokeCandidate> {
        self.inactive_key_stroke_candidates@
    }

    pub closed spec fn spec_ideal(self) -> ChunkKeyStrokeCandidate {
        self.ideal_candidate
    }

    pub closed spec fn spec_actual(self) -> Seq<ActualKeyStroke> {
        self.actual_key_strokes@
    }

    pub closed spec fn spec_cursor(self) -> int {
        self.key_stroke_cursor_position as int
    }

    pub closed spec fn spec_pending(self) -> Seq<ActualKeyStroke> {
        self.pending_key_strokes@
    }

    /// The spell is well formed, some candidate remains, every candidate is well formed,
    /// and the cursor is within every remaining candidate.
    pub open spec fn wf(self) -> bool {
        &&& self.spec_spell().wf()
        &&& self.spec_candidates().len() > 0
        &&& all_wf(self.spec_candidates())
        &&& all_wf(self.spec_inactive())
        &&& self.spec_ideal().wf()
        &&& forall|i: int| 0 <= i < self.spec_candidates().len() ==> self.spec_cursor() <= (#[trigger] self.spec_candidates()[i]).spec_whole().len()
    }

    /// The chunk is confirmed: one candidate remains and it is typed to its end.
    pub open spec fn spec_is_confirmed(self) -> bool {
        self.spec_candidates().len() == 1 && self.spec_cursor() == self.spec_candidates()[0].spec_whole().len()
    }

    /// The first candidate which may be confirmed by the next chunk and is typed to its end.
    pub open spec fn spec_delayed_index(self) -> Option<int> {
        first_delayed(self.spec_candidates(), self.spec_cursor(), self.spec_candidates().len() as int)
    }

    /// The key stroke `k` is valid at the cursor for some candidate other than the delayed
    /// confirmable one.
    pub open spec fn spec_hits(self, k: KeyStrokeChar) -> bool {
        exists|j: int| #[trigger] hit_at(self.spec_candidates(), self.spec_cursor(), k, self.spec_delayed_index(), j)
    }

    /// The key stroke `k` confirms the delayed confirmable candidate.
    pub open spec fn spec_confirms_delayed(self, k: KeyStrokeChar) -> bool {
        self.spec_delayed_index() matches Some(i) && self.spec_candidates()[i].spec_delayed()->0.spec_next_chunk_head().contains(k)
    }

    /// A chunk being typed with all its parts given.
    pub fn new(
        spell: SpellString,
        key_stroke_candidates: Vec<ChunkKeyStrokeCandidate>,
        inactive_key_stroke_candidates: Vec<ChunkKeyStrokeCandidate>,
        ideal_candidate: ChunkKeyStrokeCandidate,
        actual_key_strokes: Vec<ActualKeyStroke>,
        key_stroke_cursor_position: usize,
        pending_key_strokes: Vec<ActualKeyStroke>,
    ) -> (r: Self)
        requires
            spec_valid_chunk_spell(spell@),
        ensures
            r.spec_spell().spec_chars() == spell@,
            r.spec_spell().wf(),
            r.spec_candidates() == key_stroke_candidates@,
            r.spec_inactive() == inactive_key_stroke_candidates@,
            r.spec_ideal() == ideal_candidate,
            r.spec_actual() == actual_key_strokes@,
            r.spec_cursor() == key_stroke_cursor_position,
            r.spec_pending() == pending_key_strokes@,
    {
        ChunkInflight {
            spell: ChunkSpell::new(spell),
            key_stroke_candidates,
            inactive_key_stroke_candidates,
            ideal_candidate,
            actual_key_strokes,
            key_stroke_cursor_position,
            pending_key_strokes,
        }
    }

    /// A chunk whose typing starts, of an already built spell.
    pub fn start(
        spell: ChunkSpell,
        key_stroke_candidates: Vec<ChunkKeyStrokeCandidate>,
        inactive_key_stroke_candidates: Vec<ChunkKeyStrokeCandidate>,
        ideal_candidate: ChunkKeyStrokeCandidate,
    ) -> (r: Self)
        ensures
            r.spec_spell() == spell,
            r.spec_candidates() == key_stroke_candidates@,
            r.spec_inactive() == inactive_key_stroke_candidates@,
            r.spec_ideal() == ideal_candidate,
            r.spec_actual() == Seq::<ActualKeyStroke>::empty(),
            r.spec_cursor() == 0,
            r.spec_pending() == Seq::<ActualKeyStroke>::empty(),
    {
        ChunkInflight {
            spell,
            key_stroke_candidates,
            inactive_key_stroke_candidates,
            ideal_candidate,
            actual_key_strokes: Vec::new(),
            key_stroke_cursor_position: 0,
            pending_key_strokes: Vec::new(),
        }
    }

    /// Returns the spell of this chunk.
    pub fn spell(&self) -> (r: &ChunkSpell)
        ensures
            *r == self.spec_spell(),
    {
        &self.spell
    }

    /// Returns the position of the next key stroke in the candidates.
    pub fn key_stroke_cursor_position(&self) -> (r: usize)
        ensures
            r == self.spec_cursor(),
    {
        self.key_stroke_cursor_position
    }

    /// Returns the remaining candidates.
    pub fn key_stroke_candidates(&self) -> (r: &[ChunkKeyStrokeCandidate])
        ensures
            r@ == self.spec_candidates(),
    {
        self.key_stroke_candidates.as_slice()
    }

    /// Returns the ideal candidate.
    pub fn ideal_key_stroke_candidate(&self) -> (r: &ChunkKeyStrokeCandidate)
        ensures
            *r == self.spec_ideal(),
    {
        &self.ideal_candidate
    }

    /// Returns the key strokes typed for this chunk.
    pub fn actual_key_strokes(&self) -> (r: &[ActualKeyStroke])
        ensures
            r@ == self.spec_actual(),
    {
        self.actual_key_strokes.as_slice()
    }

    /// Returns the key strokes held back.
    pub fn pending_key_strokes(&self) -> (r: &[ActualKeyStroke])
        ensures
            r@ == self.spec_pending(),
    {
        self.pending_key_strokes.as_slice()
    }

    /// Returns the number of wrong key strokes among those held back.
    pub fn wrong_key_stroke_count_in_pending_key_strokes(&self) -> (r: usize)
        ensures
            r == self.spec_pending().filter(|k: ActualKeyStroke| !k.spec_is_correct()).len(),
    {
        let ghost p = self.spec_pending();
        let mut count: usize = 0;
        let mut i: usize = 0;
        while i < self.pending_key_strokes.len()
            invariant
                p == self.spec_pending(),
                i <= p.len(),
                count == p.take(i as int).filter(|k: ActualKeyStroke| !k.spec_is_correct()).len(),
                count <= i,
            decreases p.len() - i,
        {
            proof {
                assert(p.take(i + 1).drop_last() == p.take(i as int));
                assert(p.take(i as int).push(p[i as int]) == p.take(i + 1));
                p.take(i as int).lemma_filter_len_push(|k: ActualKeyStroke| !k.spec_is_correct(), p[i as int]);
            }
            if !self.pending_key_strokes[i].is_correct() {
                count = count + 1;
            }
            i = i + 1;
        }
        assert(p.take(i as int) == p);
        count
    }

    /// Returns the index of the first candidate which may be confirmed by the next chunk and
    /// is typed to its end.
    pub fn delayed_confirmable_candidate_index(&self) -> (r: Option<usize>)
        requires
            self.wf(),
        ensures
            match r {
                Some(i) => self.spec_delayed_index() == Some(i as int) && i < self.spec_candidates().len(),
                None => self.spec_delayed_index() is None,
            },
    {
        let mut i: usize = 0;
        while i < self.key_stroke_candidates.len()
            invariant
                self.wf(),
                i <= self.spec_candidates().len(),
                first_delayed(self.spec_candidates(), self.spec_cursor(), i as int) is None,
            decreases self.spec_candidates().len() - i,
        {
            let c = &self.key_stroke_candidates[i];
            if c.is_delayed_confirmed_candidate() && self.key_stroke_cursor_position == c.calc_key_stroke_count() {
                proof {
                    lemma_first_delayed_stable(self.spec_candidates(), self.spec_cursor(), i as int + 1, self.spec_candidates().len() as int);
                }
                return Some(i);
            }
            i = i + 1;
        }
        None
    }

    /// Returns whether a candidate which the next chunk may confirm is typed to its end.
    pub fn is_delayed_confirmable(&self) -> (r: bool)
        requires
            self.wf(),
        ensures
            r == self.spec_delayed_index() is Some,
    {
        self.delayed_confirmable_candidate_index().is_some()
    }

    /// Returns whether the chunk is confirmed.
    pub fn is_confirmed(&self) -> (r: bool)
        requires
            self.wf(),
        ensures
            r == self.spec_is_confirmed(),
    {
        if self.key_stroke_candidates.len() != 1 {
            return false;
        }
        self.key_stroke_cursor_position == self.key_stroke_candidates[0].calc_key_stroke_count()
    }

    /// Returns the first candidate with the fewest key strokes among those meeting the head
    /// restriction.
    pub fn min_candidate(&self, chunk_head_striction: Option<KeyStrokeChar>) -> (r: &ChunkKeyStrokeCandidate)
        requires
            self.wf(),
            exists|j: int| 0 <= j < self.spec_candidates().len() && meets_head(#[trigger] self.spec_candidates()[j], chunk_head_striction),
        ensures
            exists|k: int| is_min_candidate_index(self.spec_candidates(), chunk_head_striction, k) && *r == self.spec_candidates()[k],
    {
        let k = min_candidate_index(&self.key_stroke_candidates, chunk_head_striction);
        &self.key_stroke_candidates[k]
    }

    /// The candidate shown for this chunk: the first of the fewest key strokes.
    pub open spec fn spec_effective(self) -> ChunkKeyStrokeCandidate {
        let k = choose|k: int| is_min_candidate_index(self.spec_candidates(), None, k);
        self.spec_candidates()[k]
    }

    /// Returns the candidate shown for this chunk: the first of the fewest key strokes.
    pub fn effective_candidate(&self) -> (r: &ChunkKeyStrokeCandidate)
        requires
            self.wf(),
        ensures
            *r == self.spec_effective(),
            r.wf(),
            self.spec_cursor() <= r.spec_whole().len(),
    {
        assert(meets_head(self.spec_candidates()[0], None));
        let k = min_candidate_index(&self.key_stroke_candidates, None);
        proof {
            let c = choose|c: int| is_min_candidate_index(self.spec_candidates(), None, c);
            assert(c == k) by {
                if c < k {
                    assert(meets_head(self.spec_candidates()[c], None));
                } else if c > k {
                    assert(meets_head(self.spec_candidates()[k as int], None));
                }
            }
        }
        &self.key_stroke_candidates[k]
    }

    /// Returns the number of key strokes of `candidate` after the cursor.
    pub fn remaining_key_strokes(&self, candidate: &ChunkKeyStrokeCandidate) -> (r: usize)
        requires
            candidate.wf(),
            self.spec_cursor() <= candidate.spec_whole().len(),
        ensures
            r == candidate.spec_whole().len() - self.spec_cursor(),
    {
        candidate.calc_key_stroke_count() - self.key_stroke_cursor_position
    }

    /// Returns whether `candidate` is typed to its end.
    pub fn is_candidate_confirmed(&self, candidate: &ChunkKeyStrokeCandidate) -> (r: bool)
        requires
            candidate.wf(),
        ensures
            r == (self.spec_cursor() == candidate.spec_whole().len()),
    {
        self.key_stroke_cursor_position == candidate.calc_key_stroke_count()
    }

    /// Returns the number of wrong key strokes typed for the key stroke at the cursor.
    pub fn wrong_key_stroke_count_of_current_key_stroke(&self) -> (r: usize)
        ensures
            r == hak::wrong_for_index(self.spec_actual(), self.spec_cursor()).len(),
    {
        hak::wrong_key_strokes_for_correct_key_stroke_index(&self.actual_key_strokes, self.key_stroke_cursor_position).len()
    }

    /// Returns the wrong key strokes typed for the correct key stroke at `key_stroke_index`.
    pub fn wrong_key_strokes_for_correct_key_stroke_index(&self, key_stroke_index: usize) -> (r: Vec<ActualKeyStroke>)
        ensures
            r@ == hak::wrong_for_index(self.spec_actual(), key_stroke_index as int),
    {
        hak::wrong_key_strokes_for_correct_key_stroke_index(&self.actual_key_strokes, key_stroke_index)
    }

    /// Returns the number of wrong key strokes before each correct key stroke.
    pub fn wrong_key_stroke_count_of_key_stroke_index(&self) -> (r: Vec<usize>)
        ensures
            r@.len() == hak::wrong_counts(self.spec_actual()).len(),
            forall|k: int| 0 <= k < r@.len() ==> r@[k] == hak::wrong_counts(self.spec_actual())[k],
    {
        hak::wrong_key_stroke_count_of_key_stroke_index(&self.actual_key_strokes)
    }

    /// Returns the element of the effective candidate finished by a correct key stroke at
    /// `key_stroke_cursor_position`, if that key stroke ends an element.
    pub fn finishable_spell_index(&self, key_stroke_cursor_position: usize) -> (r: Option<ChunkElementIndex>)
        requires
            self.wf(),
        ensures
            r == (if self.spec_effective().spec_key_stroke().spec_is_element_end(key_stroke_cursor_position as int) == Some(true) {
                self.spec_effective().spec_key_stroke().spec_belonging_element(key_stroke_cursor_position as int)
            } else {
                None
            }),
    {
        let c = self.effective_candidate();
        match c.is_element_end_at_key_stroke_index(key_stroke_cursor_position) {
            Some(true) => c.belonging_element_index_of_key_stroke(key_stroke_cursor_position),
            _ => None,
        }
    }

    /// Returns the context of the spell element `finished_spell_index` being finished.
    /// The spell of a single character chunk has only its first element.
    pub fn spell_finished_context(&self, finished_spell_index: ChunkElementIndex) -> (r: SpellFinishedContext)
        requires
            self.wf(),
        ensures
            r.spec_spell().wf(),
            r.spec_spell().spec_chars() == match (if self.spec_spell() is DoubleChar { finished_spell_index } else { ChunkElementIndex::OnlyFirst }) {
                ChunkElementIndex::OnlyFirst => self.spec_spell().spec_chars(),
                ChunkElementIndex::DoubleFirst => seq![self.spec_spell().spec_chars()[0]],
                ChunkElementIndex::DoubleSecond => seq![self.spec_spell().spec_chars()[1]],
            },
            r.spec_wrong_count() == hak::element_wrong_sum(hak::wrong_counts(self.spec_actual()), self.spec_effective(), finished_spell_index),
    {
        let index = if self.spell.is_double_char() {
            finished_spell_index
        } else {
            ChunkElementIndex::OnlyFirst
        };
        let spell = self.spell.spell_at_index(index);
        let c = self.effective_candidate();
        let count = hak::wrong_key_stroke_count_of_element_index(&self.actual_key_strokes, c, finished_spell_index);
        SpellFinishedContext::new(spell, count)
    }

    /// Appends a key stroke to those typed for this chunk.
    pub fn append_actual_key_stroke(&mut self, actual_key_stroke: ActualKeyStroke)
        ensures
            final(self).spec_actual() == old(self).spec_actual().push(actual_key_stroke),
            final(self).spec_spell() == old(self).spec_spell(),
            final(self).spec_candidates() == old(self).spec_candidates(),
            final(self).spec_inactive() == old(self).spec_inactive(),
            final(self).spec_ideal() == old(self).spec_ideal(),
            final(self).spec_cursor() == old(self).spec_cursor(),
            final(self).spec_pending() == old(self).spec_pending(),
    {
        self.actual_key_strokes.push(actual_key_stroke);
    }

    /// Keeps only the candidates whose indexes are listed in `retain_index`; the others are
    /// moved, in order, to the inactive candidates.
    pub fn reduce_candidate(&mut self, retain_index: &[usize])
        ensures
            final(self).spec_candidates() == select_by(old(self).spec_candidates(), retain_index@, true),
            final(self).spec_inactive() == old(self).spec_inactive() + select_by(old(self).spec_candidates(), retain_index@, false),
            final(self).spec_spell() == old(self).spec_spell(),
            final(self).spec_ideal() == old(self).spec_ideal(),
            final(self).spec_actual() == old(self).spec_actual(),
            final(self).spec_cursor() == old(self).spec_cursor(),
            final(self).spec_pending() == old(self).spec_pending(),
    {
        let mut rest: Vec<ChunkKeyStrokeCandidate> = Vec::new();
        std::mem::swap(&mut rest, &mut self.key_stroke_candidates);
        let total = rest.len();
        let ghost all = rest@;
        assert(all == old(self).spec_candidates());
        let mut kept: Vec<ChunkKeyStrokeCandidate> = Vec::new();
        let mut removed: Vec<ChunkKeyStrokeCandidate> = Vec::new();
        let mut i: usize = 0;
        while rest.len() > 0
            invariant
                all.len() == total,
                self.spec_spell() == old(self).spec_spell(),
                self.spec_ideal() == old(self).spec_ideal(),
                self.spec_actual() == old(self).spec_actual(),
                self.spec_cursor() == old(self).spec_cursor(),
                self.spec_pending() == old(self).spec_pending(),
                self.spec_inactive() == old(self).spec_inactive(),
                all == old(self).spec_candidates(),
                i + rest@.len() == all.len(),
                rest@ == all.subrange(i as int, all.len() as int),
                kept@ == select_by(all.take(i as int), retain_index@, true),
                removed@ == select_by(all.take(i as int), retain_index@, false),
            decreases rest@.len(),
        {
            let ghost rb = rest@;
            let c = rest.remove(0);
            proof {
                assert(c == all[i as int]);
                assert(all.take(i + 1).drop_last() == all.take(i as int));
                assert(rest@ == all.subrange(i + 1, all.len() as int));
            }
            let mut listed = false;
            let mut k: usize = 0;
            while k < retain_index.len()
                invariant
                    k <= retain_index@.len(),
                    listed == exists|x: int| 0 <= x < k && retain_index@[x] == i,
                decreases retain_index@.len() - k,
            {
                if retain_index[k] == i {
                    listed = true;
                }
                k = k + 1;
            }
            if listed {
                kept.push(c);
            } else {
                removed.push(c);
            }
            i = i + 1;
        }
        assert(all.take(i as int) == all);
        self.key_stroke_candidates = kept;
        let ghost inactive_before = self.inactive_key_stroke_candidates@;
        while removed.len() > 0
            invariant
                self.spec_spell() == old(self).spec_spell(),
                self.spec_ideal() == old(self).spec_ideal(),
                self.spec_actual() == old(self).spec_actual(),
                self.spec_cursor() == old(self).spec_cursor(),
                self.spec_pending() == old(self).spec_pending(),
                self.spec_candidates() == select_by(all, retain_index@, true),
                inactive_before == old(self).spec_inactive(),
                self.inactive_key_stroke_candidates@ + removed@ == inactive_before + select_by(all, retain_index@, false),
            decreases removed@.len(),
        {
            let ghost ib = self.inactive_key_stroke_candidates@;
            let ghost rb = removed@;
            let c = removed.remove(0);
            self.inactive_key_stroke_candidates.push(c);
            proof {
                assert(rb == seq![c] + removed@);
                assert(self.inactive_key_stroke_candidates@ + removed@ == ib + rb);
            }
        }
        proof {
            assert(self.inactive_key_stroke_candidates@ + removed@ == self.inactive_key_stroke_candidates@);
        }
    }
}

/// `c` is a candidate of `s` at an index listed in `idx` as asked by `keep`.
pub open spec fn from_listed(s: Seq<ChunkKeyStrokeCandidate>, idx: Seq<usize>, keep: bool, c: ChunkKeyStrokeCandidate) -> bool {
    exists|j: int| 0 <= j < s.len() && lists(idx, j) == keep && c == s[j]
}

/// The candidates of `s` whose indexes satisfy `p` (when `keep`) or do not (when not `keep`),
/// in their order.
pub open spec fn filter_indexes(s: Seq<ChunkKeyStrokeCandidate>, p: spec_fn(int) -> bool, keep: bool) -> Seq<ChunkKeyStrokeCandidate>
    decreases s.len(),
{
    if s.len() == 0 {
        Seq::empty()
    } else {
        let q = filter_indexes(s.drop_last(), p, keep);
        if p(s.len() - 1) == keep {
            q.push(s.last())
        } else {
            q
        }
    }
}

/// Selecting by a list of indexes is filtering by membership in it.
pub proof fn lemma_select_by_filter(s: Seq<ChunkKeyStrokeCandidate>, idx: Seq<usize>, p: spec_fn(int) -> bool, keep: bool)
    requires
        forall|j: int| 0 <= j < s.len() ==> lists(idx, j) == p(j),
    ensures
        select_by(s, idx, keep) == filter_indexes(s, p, keep),
    decreases s.len(),
{
    if s.len() > 0 {
        lemma_select_by_filter(s.drop_last(), idx, p, keep);
    }
}

/// `new` is the chunk `old` after the key stroke `k`, typed at `t`, was correct for it and did
/// not confirm a candidate waiting for the next chunk: the candidates expecting `k` at the
/// cursor remain, the others become inactive, the cursor moves on and the key stroke is
/// recorded (held back while a candidate waits for the next chunk, with the key strokes held
/// back before it when the chunk is confirmed).
pub open spec fn typed_correctly(new: ChunkInflight, old: ChunkInflight, k: KeyStrokeChar, t: Duration) -> bool {
    let hits = |j: int| hit_at(old.spec_candidates(), old.spec_cursor(), k, old.spec_delayed_index(), j);
    let a = ActualKeyStroke::spec_new(t, k, true);
    &&& new.wf()
    &&& new.spec_spell() == old.spec_spell()
    &&& new.spec_ideal() == old.spec_ideal()
    &&& new.spec_candidates() == filter_indexes(old.spec_candidates(), hits, true)
    &&& new.spec_inactive() == old.spec_inactive() + filter_indexes(old.spec_candidates(), hits, false)
    &&& new.spec_cursor() == old.spec_cursor() + 1
    &&& old.spec_delayed_index() is None ==> if new.spec_is_confirmed() {
        new.spec_actual() == old.spec_actual().push(a) + old.spec_pending() && new.spec_pending().len() == 0
    } else {
        new.spec_actual() == old.spec_actual().push(a) && new.spec_pending() == old.spec_pending()
    }
    &&& old.spec_delayed_index() is Some ==> if new.spec_is_confirmed() {
        new.spec_actual() == old.spec_actual() + old.spec_pending().push(a) && new.spec_pending().len() == 0
    } else {
        new.spec_actual() == old.spec_actual() && new.spec_pending() == old.spec_pending().push(a)
    }
}

/// `new` is the chunk `old` after the wrong key stroke `k`, typed at `t`: only the key stroke
/// is recorded (held back while a candidate waits for the next chunk).
pub open spec fn typed_wrongly(new: ChunkInflight, old: ChunkInflight, k: KeyStrokeChar, t: Duration) -> bool {
    let a = ActualKeyStroke::spec_new(t, k, false);
    &&& new.wf()
    &&& !new.spec_is_confirmed()
    &&& new.spec_spell() == old.spec_spell()
    &&& new.spec_ideal() == old.spec_ideal()
    &&& new.spec_candidates() == old.spec_candidates()
    &&& new.spec_inactive() == old.spec_inactive()
    &&& new.spec_cursor() == old.spec_cursor()
    &&& old.spec_delayed_index() is Some ==> new.spec_pending() == old.spec_pending().push(a) && new.spec_actual() == old.spec_actual()
    &&& old.spec_delayed_index() is None ==> new.spec_actual() == old.spec_actual().push(a) && new.spec_pending() == old.spec_pending()
}

/// The spell element that the key stroke at `index` of the candidate in effect of `c`
/// finishes, if it ends one.
pub open spec fn finished_element(c: ChunkInflight, index: int) -> Option<ChunkElementIndex> {
    if c.spec_effective().spec_key_stroke().spec_is_element_end(index) == Some(true) {
        c.spec_effective().spec_key_stroke().spec_belonging_element(index)
    } else {
        None
    }
}

/// `ctx` reports the spell element `i` of `c` finished: its spell, and the wrong key strokes
/// typed for it.
pub open spec fn is_finished_context(c: ChunkInflight, i: ChunkElementIndex, ctx: SpellFinishedContext) -> bool {
    &&& ctx.spec_spell().wf()
    &&& ctx.spec_spell().spec_chars() == match (if c.spec_spell() is DoubleChar { i } else { ChunkElementIndex::OnlyFirst }) {
        ChunkElementIndex::OnlyFirst => c.spec_spell().spec_chars(),
        ChunkElementIndex::DoubleFirst => seq![c.spec_spell().spec_chars()[0]],
        ChunkElementIndex::DoubleSecond => seq![c.spec_spell().spec_chars()[1]],
    }
    &&& ctx.spec_wrong_count() == hak::element_wrong_sum(hak::wrong_counts(c.spec_actual()), c.spec_effective(), i)
}

/// `ctx` is the context of the element `fin` of `c` finished, and none when none is.
pub open spec fn finished_context_matches(c: ChunkInflight, fin: Option<ChunkElementIndex>, ctx: Option<SpellFinishedContext>) -> bool {
    match fin {
        None => ctx is None,
        Some(i) => ctx matches Some(x) && is_finished_context(c, i, x),
    }
}

/// The members of a selection are candidates of the selected sequence listed as asked.
pub proof fn lemma_select_by_members(s: Seq<ChunkKeyStrokeCandidate>, idx: Seq<usize>, keep: bool)
    ensures
        forall|x: int| 0 <= x < select_by(s, idx, keep).len() ==> #[trigger] from_listed(s, idx, keep, select_by(s, idx, keep)[x]),
        select_by(s, idx, keep).len() <= s.len(),
    decreases s.len(),
{
    if s.len() > 0 {
        lemma_select_by_members(s.drop_last(), idx, keep);
        let p = select_by(s.drop_last(), idx, keep);
        assert forall|x: int| 0 <= x < select_by(s, idx, keep).len() implies #[trigger] from_listed(s, idx, keep, select_by(s, idx, keep)[x]) by {
            if x < p.len() {
                assert(select_by(s, idx, keep)[x] == p[x]);
                assert(from_listed(s.drop_last(), idx, keep, p[x]));
                let j = choose|j: int| 0 <= j < s.drop_last().len() && lists(idx, j) == keep && p[x] == s.drop_last()[j];
                assert(s[j] == s.drop_last()[j]);
            } else {
                assert(select_by(s, idx, keep)[x] == s[s.len() - 1]);
            }
        }
    }
}

/// Selecting a listed candidate gives a non-empty selection.
pub proof fn lemma_select_by_nonempty(s: Seq<ChunkKeyStrokeCandidate>, idx: Seq<usize>, j: int)
    requires
        0 <= j < s.len(),
        lists(idx, j),
    ensures
        select_by(s, idx, true).len() > 0,
    decreases s.len(),
{
    if j < s.len() - 1 {
        lemma_select_by_nonempty(s.drop_last(), idx, j);
    }
}

/// Selecting the single index `d` gives the candidate at `d`.
pub proof fn lemma_select_by_single(s: Seq<ChunkKeyStrokeCandidate>, d: usize)
    requires
        d < s.len(),
    ensures
        select_by(s, seq![d], true) == seq![s[d as int]],
{
    lemma_select_single_prefix(s, d, s.len() as int);
    assert(s.take(s.len() as int) == s);
}

proof fn lemma_select_single_prefix(s: Seq<ChunkKeyStrokeCandidate>, d: usize, n: int)
    requires
        d < s.len(),
        0 <= n <= s.len(),
    ensures
        select_by(s.take(n), seq![d], true) == if n > d { seq![s[d as int]] } else { Seq::<ChunkKeyStrokeCandidate>::empty() },
    decreases n,
{
    if n > 0 {
        lemma_select_single_prefix(s, d, n - 1);
        assert(s.take(n).drop_last() == s.take(n - 1));
        assert(seq![d][0] == d);
        assert(lists(seq![d], n - 1) == (n - 1 == d));
    }
    if n == s.len() {
        assert(s.take(n) == s);
    }
}

/// The result of a key stroke typed for a chunk.
#[derive(Debug, Clone, PartialEq, Eq, Hash)]
pub enum KeyStrokeResult {
    /// The key stroke is correct; the wrong key strokes typed for it are given.
    Correct(KeyStrokeCorrectResult, Vec<ActualKeyStroke>),
    /// The key stroke is correct for the next chunk and confirms the candidate of this chunk
    /// which waited for it.
    ConfirmDelayed(KeyStrokeCorrectResult),
    /// The key stroke is wrong.
    Wrong,
}

/// What a correct key stroke finished.
#[derive(Debug, Clone, PartialEq, Eq, Hash)]
pub struct KeyStrokeCorrectResult {
    /// The spell element finished by the key stroke, if any.
    spell_finished_context: Option<SpellFinishedContext>,
    /// Present when the key stroke confirms the chunk: the key strokes held back, which
    /// belong to the next chunk.
    chunk_confirmation: Option<Vec<ActualKeyStroke>>,
}

impl KeyStrokeCorrectResult {
    pub closed spec fn spec_spell_finished(self) -> Option<SpellFinishedContext> {
        self.spell_finished_context
    }

    pub closed spec fn spec_confirmation(self) -> Option<Seq<ActualKeyStroke>> {
        match self.chunk_confirmation {
            Some(v) => Some(v@),
            None => None,
        }
    }

    pub fn new(spell_finished_context: Option<SpellFinishedContext>, chunk_confirmation: Option<Vec<ActualKeyStroke>>) -> (r: Self)
        ensures
            r.spec_spell_finished() == spell_finished_context,
            r.spec_confirmation() == match chunk_confirmation {
                Some(v) => Some(v@),
                None => None::<Seq<ActualKeyStroke>>,
            },
    {
        KeyStrokeCorrectResult { spell_finished_context, chunk_confirmation }
    }

    /// Returns the finished spell element, if any.
    pub fn spell_finished_context(&self) -> (r: &Option<SpellFinishedContext>)
        ensures
            *r == self.spec_spell_finished(),
    {
        &self.spell_finished_context
    }

    /// Returns the key strokes for the next chunk, if the key stroke confirms the chunk.
    pub fn chunk_confirmation(&self) -> (r: &Option<Vec<ActualKeyStroke>>)
        ensures
            r is Some == self.spec_confirmation() is Some,
            r matches Some(v) ==> v@ == self.spec_confirmation()->0,
    {
        &self.chunk_confirmation
    }

    /// Takes the parts of this result.
    pub fn into_parts(self) -> (r: (Option<SpellFinishedContext>, Option<Vec<ActualKeyStroke>>))
        ensures
            r.0 == self.spec_spell_finished(),
            r.1 is Some == self.spec_confirmation() is Some,
            r.1 matches Some(v) ==> v@ == self.spec_confirmation()->0,
    {
        (self.spell_finished_context, self.chunk_confirmation)
    }
}

impl KeyStrokeResult {
    /// Returns whether the key stroke is correct.
    pub fn is_correct(&self) -> (r: bool)
        ensures
            r == !(*self is Wrong),
    {
        !matches!(self, KeyStrokeResult::Wrong)
    }

    /// Returns what the key stroke finished, if it is correct.
    pub fn correct_context(&self) -> (r: Option<&KeyStrokeCorrectResult>)
        ensures
            match *self {
                KeyStrokeResult::Correct(c, _) => r == Some(&c),
                KeyStrokeResult::ConfirmDelayed(c) => r == Some(&c),
                KeyStrokeResult::Wrong => r is None,
            },
    {
        match self {
            KeyStrokeResult::Correct(c, _) => Some(c),
            KeyStrokeResult::ConfirmDelayed(c) => Some(c),
            KeyStrokeResult::Wrong => None,
        }
    }

    /// Returns the wrong key strokes typed for the correct key stroke; present only for a key
    /// stroke of this chunk that is correct.
    pub fn wrong_key_strokes(&self) -> (r: Option<&[ActualKeyStroke]>)
        ensures
            match *self {
                KeyStrokeResult::Correct(_, w) => r is Some && r->0@ == w@,
                _ => r is None,
            },
    {
        match self {
            KeyStrokeResult::Correct(_, w) => Some(w.as_slice()),
            _ => None,
        }
    }
}

impl ChunkInflight {
    /// Moves the cursor one key stroke on and returns the element finished by the key stroke
    /// just passed, if it ends one.
    fn advance_cursor(&mut self) -> (r: Option<ChunkElementIndex>)
        requires
            old(self).wf(),
            forall|i: int| 0 <= i < old(self).spec_candidates().len() ==> old(self).spec_cursor() < (#[trigger] old(self).spec_candidates()[i]).spec_whole().len(),
        ensures
            final(self).wf(),
            final(self).spec_cursor() == old(self).spec_cursor() + 1,
            final(self).spec_candidates() == old(self).spec_candidates(),
            final(self).spec_inactive() == old(self).spec_inactive(),
            final(self).spec_spell() == old(self).spec_spell(),
            final(self).spec_ideal() == old(self).spec_ideal(),
            final(self).spec_actual() == old(self).spec_actual(),
            final(self).spec_pending() == old(self).spec_pending(),
            r == (if final(self).spec_effective().spec_key_stroke().spec_is_element_end(old(self).spec_cursor()) == Some(true) {
                final(self).spec_effective().spec_key_stroke().spec_belonging_element(old(self).spec_cursor())
            } else {
                None
            }),
    {
        assert(self.spec_cursor() < self.spec_candidates()[0].spec_whole().len());
        self.key_stroke_cursor_position = self.key_stroke_cursor_position + 1;
        self.finishable_spell_index(self.key_stroke_cursor_position - 1)
    }
}

/// The candidate at `j`, other than the one at `d`, expects `k` at `cursor`.
pub open spec fn hit_at(s: Seq<ChunkKeyStrokeCandidate>, cursor: int, k: KeyStrokeChar, d: Option<int>, j: int) -> bool {
    &&& 0 <= j < s.len()
    &&& Some(j) != d
    &&& cursor < s[j].spec_whole().len()
    &&& s[j].spec_whole()[cursor] == k.spec_char()
}

/// An optional index as an optional integer.
pub open spec fn opt_int(d: Option<usize>) -> Option<int> {
    match d {
        Some(x) => Some(x as int),
        None => None,
    }
}

impl ChunkInflight {
    /// Returns the indexes of the candidates, other than the one at `delayed`, which expect
    /// `key_stroke` at the cursor.
    fn hit_candidate_indexes(&self, key_stroke: KeyStrokeChar, delayed: Option<usize>) -> (r: Vec<usize>)
        requires
            self.wf(),
        ensures
            forall|k: int| 0 <= k < r@.len() ==> hit_at(self.spec_candidates(), self.spec_cursor(), key_stroke, opt_int(delayed), #[trigger] r@[k] as int),
            forall|j: int| #[trigger] hit_at(self.spec_candidates(), self.spec_cursor(), key_stroke, opt_int(delayed), j) ==> lists(r@, j),
    {
        let ghost s = self.spec_candidates();
        let ghost c = self.spec_cursor();
        let ghost d = opt_int(delayed);
        let mut hit: Vec<usize> = Vec::new();
        let mut i: usize = 0;
        while i < self.key_stroke_candidates.len()
            invariant
                self.wf(),
                s == self.spec_candidates(),
                c == self.spec_cursor(),
                d == opt_int(delayed),
                i <= s.len(),
                forall|k: int| 0 <= k < hit@.len() ==> hit_at(s, c, key_stroke, d, #[trigger] hit@[k] as int),
                forall|j: int| 0 <= j < i && #[trigger] hit_at(s, c, key_stroke, d, j) ==> lists(hit@, j),
            decreases s.len() - i,
        {
            let is_delayed = match delayed {
                Some(x) => x == i,
                None => false,
            };
            let ghost hb = hit@;
            if !is_delayed && self.key_stroke_candidates[i].is_hit(&key_stroke, self.key_stroke_cursor_position) {
                hit.push(i);
                proof {
                    assert(hit@[hit@.len() - 1] == i);
                    assert forall|k: int| 0 <= k < hit@.len() implies hit_at(s, c, key_stroke, d, #[trigger] hit@[k] as int) by {
                        if k < hb.len() {
                            assert(hit@[k] == hb[k]);
                        }
                    }
                    assert forall|j: int| 0 <= j <= i && #[trigger] hit_at(s, c, key_stroke, d, j) implies lists(hit@, j) by {
                        if j < i {
                            let x = choose|x: int| 0 <= x < hb.len() && hb[x] == j;
                            assert(hit@[x] == hb[x]);
                        }
                    }
                }
            } else {
                proof {
                    assert(!hit_at(s, c, key_stroke, d, i as int));
                }
            }
            i = i + 1;
        }
        hit
    }

    /// Appends the held back key strokes to the key strokes of this chunk.
    fn flush_pending(&mut self)
        ensures
            final(self).spec_actual() == old(self).spec_actual() + old(self).spec_pending(),
            final(self).spec_pending().len() == 0,
            final(self).spec_spell() == old(self).spec_spell(),
            final(self).spec_candidates() == old(self).spec_candidates(),
            final(self).spec_inactive() == old(self).spec_inactive(),
            final(self).spec_ideal() == old(self).spec_ideal(),
            final(self).spec_cursor() == old(self).spec_cursor(),
    {
        let mut pending: Vec<ActualKeyStroke> = Vec::new();
        std::mem::swap(&mut pending, &mut self.pending_key_strokes);
        let ghost a0 = self.spec_actual();
        let mut k: usize = 0;
        while k < pending.len()
            invariant
                k <= pending@.len(),
                pending@ == old(self).spec_pending(),
                a0 == old(self).spec_actual(),
                self.spec_actual() == a0 + pending@.take(k as int),
                self.spec_pending().len() == 0,
                self.spec_spell() == old(self).spec_spell(),
                self.spec_candidates() == old(self).spec_candidates(),
                self.spec_inactive() == old(self).spec_inactive(),
                self.spec_ideal() == old(self).spec_ideal(),
                self.spec_cursor() == old(self).spec_cursor(),
            decreases pending@.len() - k,
        {
            self.actual_key_strokes.push(pending[k]);
            proof {
                assert(pending@.take(k + 1) == pending@.take(k as int).push(pending@[k as int]));
            }
            k = k + 1;
        }
        assert(pending@.take(k as int) == pending@);
    }

    /// The finished spell element's context, if any.
    fn finished_context(&self, finished: Option<ChunkElementIndex>) -> (r: Option<SpellFinishedContext>)
        requires
            self.wf(),
        ensures
            r is Some == finished is Some,
            finished_context_matches(*self, finished, r),
    {
        match finished {
            Some(index) => Some(self.spell_finished_context(index)),
            None => None,
        }
    }

    /// Confirms the candidate at `d` which waited for the next chunk, by the key stroke
    /// `key_stroke` at `elapsed_time`.
    fn confirm_delayed(&mut self, d: usize, key_stroke: KeyStrokeChar, elapsed_time: Duration) -> (r: KeyStrokeResult)
        requires
            old(self).wf(),
            old(self).spec_delayed_index() == Some(d as int),
        ensures
            final(self).wf(),
            final(self).spec_spell() == old(self).spec_spell(),
            final(self).spec_ideal() == old(self).spec_ideal(),
            r is ConfirmDelayed,
            final(self).spec_is_confirmed(),
            final(self).spec_cursor() == old(self).spec_cursor(),
            final(self).spec_candidates() == seq![old(self).spec_candidates()[d as int]],
            final(self).spec_actual() == old(self).spec_actual(),
            final(self).spec_pending().len() == 0,
            r->ConfirmDelayed_0.spec_confirmation() == Some(
                old(self).spec_pending().push(ActualKeyStroke::spec_new(elapsed_time, key_stroke, true)),
            ),
            final(self).spec_inactive() == old(self).spec_inactive() + filter_indexes(old(self).spec_candidates(), |j: int| j == d as int, false),
            finished_context_matches(
                *final(self),
                if old(self).spec_cursor() > 0 { finished_element(*final(self), old(self).spec_cursor() - 1) } else { None },
                r->ConfirmDelayed_0.spec_spell_finished(),
            ),
    {
        proof {
            lemma_first_delayed(self.spec_candidates(), self.spec_cursor(), self.spec_candidates().len() as int);
        }
        self.pending_key_strokes.push(ActualKeyStroke::new(elapsed_time, key_stroke, true));
        let ghost before = self.spec_candidates();
        let retain = vec![d];
        self.reduce_candidate(&retain);
        proof {
            assert(retain@ == seq![d]);
            assert forall|j: int| 0 <= j < before.len() implies lists(retain@, j) == (|j: int| j == d as int)(j) by {
                if j == d {
                    assert(retain@[0] == d);
                }
            }
            lemma_select_by_filter(before, retain@, |j: int| j == d as int, false);
            lemma_select_by_single(before, d);
            assert(self.spec_candidates()[0] == before[d as int]);
            lemma_select_by_members(before, retain@, false);
            assert forall|i: int| 0 <= i < self.spec_inactive().len() implies (#[trigger] self.spec_inactive()[i]).wf() by {
                if i >= old(self).spec_inactive().len() {
                    let x = i - old(self).spec_inactive().len();
                    assert(self.spec_inactive()[i] == select_by(before, retain@, false)[x]);
                    assert(from_listed(before, retain@, false, select_by(before, retain@, false)[x]));
                }
            }
            assert(before[d as int].spec_whole().len() > 0) by {
                assert(before[d as int].wf());
                assert(before[d as int].spec_delayed() is Some);
            }
        }
        let finished = if self.key_stroke_cursor_position > 0 {
            self.finishable_spell_index(self.key_stroke_cursor_position - 1)
        } else {
            None
        };
        let context = self.finished_context(finished);
        let mut pending: Vec<ActualKeyStroke> = Vec::new();
        std::mem::swap(&mut pending, &mut self.pending_key_strokes);
        KeyStrokeResult::ConfirmDelayed(KeyStrokeCorrectResult::new(context, Some(pending)))
    }

    /// Types the key stroke `key_stroke` at `elapsed_time` for this chunk.
    ///
    /// When a candidate waiting for the next chunk is typed to its end and `key_stroke` is a
    /// valid head of the next chunk, that candidate is confirmed and the held back key
    /// strokes, with this one, are handed to the next chunk. Otherwise the key stroke is
    /// correct when some other candidate expects it at the cursor: only those candidates
    /// remain and the cursor moves on. While a candidate waits for the next chunk, key strokes
    /// are held back; otherwise they are recorded for this chunk.
    pub fn stroke_key(&mut self, key_stroke: KeyStrokeChar, elapsed_time: Duration) -> (r: KeyStrokeResult)
        requires
            old(self).wf(),
            !old(self).spec_is_confirmed(),
        ensures
            final(self).wf(),
            final(self).spec_spell() == old(self).spec_spell(),
            final(self).spec_ideal() == old(self).spec_ideal(),
            forall|x: int|
                0 <= x < final(self).spec_candidates().len() ==> old(self).spec_candidates().contains(
                    #[trigger] final(self).spec_candidates()[x],
                ),
            (r is ConfirmDelayed) == old(self).spec_confirms_delayed(key_stroke),
            (r is Correct) == (!old(self).spec_confirms_delayed(key_stroke) && old(self).spec_hits(key_stroke)),
            r is ConfirmDelayed ==> {
                &&& final(self).spec_is_confirmed()
                &&& final(self).spec_cursor() == old(self).spec_cursor()
                &&& final(self).spec_candidates() == seq![old(self).spec_candidates()[old(self).spec_delayed_index()->0]]
                &&& final(self).spec_actual() == old(self).spec_actual()
                &&& final(self).spec_pending().len() == 0
                &&& r->ConfirmDelayed_0.spec_confirmation() == Some(
                    old(self).spec_pending().push(ActualKeyStroke::spec_new(elapsed_time, key_stroke, true)),
                )
                &&& final(self).spec_inactive() == old(self).spec_inactive() + filter_indexes(
                    old(self).spec_candidates(),
                    |j: int| j == old(self).spec_delayed_index()->0,
                    false,
                )
                &&& finished_context_matches(
                    *final(self),
                    if old(self).spec_cursor() > 0 { finished_element(*final(self), old(self).spec_cursor() - 1) } else { None },
                    r->ConfirmDelayed_0.spec_spell_finished(),
                )
            },
            r is Correct ==> {
                let hits = |j: int| hit_at(old(self).spec_candidates(), old(self).spec_cursor(), key_stroke, old(self).spec_delayed_index(), j);
                let a = ActualKeyStroke::spec_new(elapsed_time, key_stroke, true);
                &&& final(self).spec_candidates() == filter_indexes(old(self).spec_candidates(), hits, true)
                &&& final(self).spec_inactive() == old(self).spec_inactive() + filter_indexes(old(self).spec_candidates(), hits, false)
                &&& old(self).spec_delayed_index() is None ==> if final(self).spec_is_confirmed() {
                    final(self).spec_actual() == old(self).spec_actual().push(a) + old(self).spec_pending() && final(self).spec_pending().len() == 0
                } else {
                    final(self).spec_actual() == old(self).spec_actual().push(a) && final(self).spec_pending() == old(self).spec_pending()
                }
                &&& old(self).spec_delayed_index() is Some ==> if final(self).spec_is_confirmed() {
                    final(self).spec_actual() == old(self).spec_actual() + old(self).spec_pending().push(a) && final(self).spec_pending().len() == 0
                } else {
                    final(self).spec_actual() == old(self).spec_actual() && final(self).spec_pending() == old(self).spec_pending().push(a)
                }
                &&& if final(self).spec_is_confirmed() || final(self).spec_delayed_index() is None {
                    finished_context_matches(*final(self), finished_element(*final(self), old(self).spec_cursor()), r->Correct_0.spec_spell_finished())
                } else {
                    r->Correct_0.spec_spell_finished() is None
                }
                &&& final(self).spec_cursor() == old(self).spec_cursor() + 1
                &&& forall|i: int| 0 <= i < final(self).spec_candidates().len() ==> (#[trigger] final(self).spec_candidates()[i]).spec_whole()[old(self).spec_cursor()]
                    == key_stroke.spec_char()
                &&& r->Correct_1@ == hak::wrong_for_index(final(self).spec_actual(), old(self).spec_cursor())
                &&& (r->Correct_0.spec_confirmation() is Some) == final(self).spec_is_confirmed()
                &&& final(self).spec_is_confirmed() ==> r->Correct_0.spec_confirmation() == Some(Seq::<ActualKeyStroke>::empty())
            },
            r is Correct ==> typed_correctly(*final(self), *old(self), key_stroke, elapsed_time),
            r is Wrong ==> typed_wrongly(*final(self), *old(self), key_stroke, elapsed_time),
            r is Wrong ==> {
                &&& final(self).spec_candidates() == old(self).spec_candidates()
                &&& final(self).spec_inactive() == old(self).spec_inactive()
                &&& final(self).spec_cursor() == old(self).spec_cursor()
                &&& old(self).spec_delayed_index() is Some ==> final(self).spec_pending() == old(self).spec_pending().push(
                    ActualKeyStroke::spec_new(elapsed_time, key_stroke, false),
                ) && final(self).spec_actual() == old(self).spec_actual()
                &&& old(self).spec_delayed_index() is None ==> final(self).spec_actual() == old(self).spec_actual().push(
                    ActualKeyStroke::spec_new(elapsed_time, key_stroke, false),
                ) && final(self).spec_pending() == old(self).spec_pending()
            },
    {
        proof {
            lemma_first_delayed(self.spec_candidates(), self.spec_cursor(), self.spec_candidates().len() as int);
        }
        let delayed = self.delayed_confirmable_candidate_index();
        if let Some(d) = delayed {
            let confirms = match self.key_stroke_candidates[d].delayed_confirmed_candidate_info() {
                Some(info) => info.can_confirm_with_key_stroke(key_stroke),
                None => false,
            };
            if confirms {
                proof {
                    assert((|j: int| j == d as int) =~= (|j: int| j == self.spec_delayed_index()->0));
                }
                return self.confirm_delayed(d, key_stroke, elapsed_time);
            }
        }
        let ghost before = self.spec_candidates();
        let cursor = self.key_stroke_cursor_position;
        let hit = self.hit_candidate_indexes(key_stroke, delayed);
        let is_hit = hit.len() > 0;
        proof {
            assert(opt_int(delayed) == self.spec_delayed_index());
            if is_hit {
                assert(hit_at(before, cursor as int, key_stroke, opt_int(delayed), hit@[0] as int));
            } else {
                assert forall|j: int| 0 <= j < before.len() implies !hit_at(before, cursor as int, key_stroke, opt_int(delayed), j) by {
                    if hit_at(before, cursor as int, key_stroke, opt_int(delayed), j) {
                        assert(lists(hit@, j));
                    }
                }
            }
        }
        let actual = ActualKeyStroke::new(elapsed_time, key_stroke, is_hit);
        if delayed.is_some() {
            self.pending_key_strokes.push(actual);
        } else {
            self.actual_key_strokes.push(actual);
        }
        if is_hit {
            self.reduce_candidate(&hit);
            proof {
                lemma_select_by_filter(before, hit@, |j: int| hit_at(before, cursor as int, key_stroke, opt_int(delayed), j), true);
                lemma_select_by_filter(before, hit@, |j: int| hit_at(before, cursor as int, key_stroke, opt_int(delayed), j), false);
                lemma_select_by_members(before, hit@, true);
                lemma_select_by_nonempty(before, hit@, hit@[0] as int);
                lemma_select_by_members(before, hit@, false);
                assert forall|x: int| 0 <= x < self.spec_candidates().len() implies
                    cursor < (#[trigger] self.spec_candidates()[x]).spec_whole().len() && self.spec_candidates()[x].wf()
                        && self.spec_candidates()[x].spec_whole()[cursor as int] == key_stroke.spec_char() by {
                    assert(from_listed(before, hit@, true, self.spec_candidates()[x]));
                    let j = choose|j: int| 0 <= j < before.len() && lists(hit@, j) == true && self.spec_candidates()[x] == before[j];
                    let k = choose|k: int| 0 <= k < hit@.len() && hit@[k] == j;
                    assert(hit_at(before, cursor as int, key_stroke, opt_int(delayed), hit@[k] as int));
                }
                assert forall|x: int| 0 <= x < self.spec_candidates().len() implies before.contains(
                    #[trigger] self.spec_candidates()[x],
                ) by {
                    assert(from_listed(before, hit@, true, self.spec_candidates()[x]));
                    let j = choose|j: int| 0 <= j < before.len() && lists(hit@, j) == true && self.spec_candidates()[x] == before[j];
                    assert(before[j] == self.spec_candidates()[x]);
                }
                assert forall|x: int| 0 <= x < self.spec_inactive().len() implies (#[trigger] self.spec_inactive()[x]).wf() by {
                    if x >= old(self).spec_inactive().len() {
                        let y = x - old(self).spec_inactive().len();
                        assert(self.spec_inactive()[x] == select_by(before, hit@, false)[y]);
                        assert(from_listed(before, hit@, false, select_by(before, hit@, false)[y]));
                    }
                }
            }
            let ghost reduced = self.spec_candidates();
            let finished = self.advance_cursor();
            let correct = if self.is_confirmed() {
                self.flush_pending();
                let context = self.finished_context(finished);
                let none: Vec<ActualKeyStroke> = Vec::new();
                proof {
                    assert(none@ =~= Seq::<ActualKeyStroke>::empty());
                }
                KeyStrokeCorrectResult::new(context, Some(none))
            } else {
                let context = if self.delayed_confirmable_candidate_index().is_none() {
                    self.finished_context(finished)
                } else {
                    None
                };
                KeyStrokeCorrectResult::new(context, None)
            };
            assert(self.spec_candidates() == reduced);
            let wrong = self.wrong_key_strokes_for_correct_key_stroke_index(cursor);
            KeyStrokeResult::Correct(correct, wrong)
        } else {
            KeyStrokeResult::Wrong
        }
    }
}

impl ChunkInflight {
    /// Turns this chunk into a confirmed chunk, when it is confirmed.
    pub fn try_into_confirmed(self) -> (r: Result<ChunkConfirmed, ChunkInflight>)
        requires
            self.wf(),
        ensures
            r is Ok == self.spec_is_confirmed(),
            r matches Ok(c) ==> {
                &&& c.spec_spell() == self.spec_spell()
                &&& c.spec_confirmed() == self.spec_candidates()[0]
                &&& c.spec_inactive() == self.spec_inactive()
                &&& c.spec_ideal() == self.spec_ideal()
                &&& c.spec_actual() == self.spec_actual()
            },
            r matches Err(s) ==> s == self,
    {
        if self.is_confirmed() {
            let ChunkInflight {
                spell,
                key_stroke_candidates,
                inactive_key_stroke_candidates,
                ideal_candidate,
                actual_key_strokes,
                key_stroke_cursor_position: _,
                pending_key_strokes: _,
            } = self;
            let mut candidates = key_stroke_candidates;
            let confirmed = candidates.remove(0);
            Ok(ChunkConfirmed::new(spell, confirmed, inactive_key_stroke_candidates, ideal_candidate, actual_key_strokes))
        } else {
            Err(self)
        }
    }

    /// Returns the cursor position in the spell of this chunk: on the element of the key
    /// stroke at the cursor, or on the end of the spell when the cursor is past the effective
    /// candidate.
    pub fn spell_cursor_position(&self) -> (r: ChunkSpellCursorPosition)
        requires
            self.wf(),
        ensures
            r == spec_spell_cursor(self.spec_effective(), self.spec_spell(), self.spec_cursor()),
    {
        let c = self.effective_candidate();
        match c.belonging_element_index_of_key_stroke(self.key_stroke_cursor_position) {
            Some(ChunkElementIndex::OnlyFirst) => if self.spell.is_double_char() {
                ChunkSpellCursorPosition::DoubleCombined
            } else {
                ChunkSpellCursorPosition::Single
            },
            Some(ChunkElementIndex::DoubleFirst) => ChunkSpellCursorPosition::DoubleFirst,
            Some(ChunkElementIndex::DoubleSecond) => ChunkSpellCursorPosition::DoubleSecond,
            None => if c.key_stroke().is_double_splitted() {
                ChunkSpellCursorPosition::DoubleSecond
            } else if c.key_stroke().is_double() {
                ChunkSpellCursorPosition::DoubleCombined
            } else {
                ChunkSpellCursorPosition::Single
            },
        }
    }

    /// Returns the positions, shifted by `offset`, of the correct key strokes of this chunk
    /// before which a wrong key stroke was typed.
    pub fn wrong_key_stroke_positions(&self, offset: usize) -> (r: Vec<usize>)
        requires
            offset + self.spec_actual().len() <= usize::MAX,
        ensures
            r@.len() == hak::positive_positions(hak::wrong_counts(self.spec_actual()), offset as int).len(),
            forall|k: int| 0 <= k < r@.len() ==> r@[k] == hak::positive_positions(hak::wrong_counts(self.spec_actual()), offset as int)[k],
    {
        hak::wrong_key_stroke_positions(&self.actual_key_strokes, offset)
    }

    /// Returns the positions, shifted by `offset`, of the spell characters of this chunk for
    /// which a wrong key stroke was typed.
    pub fn wrong_spell_positions(&self, offset: usize) -> (r: Vec<usize>)
        requires
            self.wf(),
            offset + 1 <= usize::MAX,
        ensures
            r@.len() == hak::spec_wrong_spell_positions(self.spec_actual(), self.spec_effective(), self.spec_spell(), offset as int).len(),
            forall|k: int| 0 <= k < r@.len() ==> r@[k] == hak::spec_wrong_spell_positions(self.spec_actual(), self.spec_effective(), self.spec_spell(), offset as int)[k],
    {
        hak::wrong_spell_positions(&self.actual_key_strokes, self.effective_candidate(), &self.spell, offset)
    }

    /// Returns, for each key stroke of this chunk, the number of spell characters it ends.
    pub fn construct_spell_end_vector(&self) -> (r: Vec<Option<usize>>)
        requires
            self.wf(),
        ensures
            r@ == hak::spec_spell_end_vector(self.spec_actual(), self.spec_effective(), self.spec_spell()),
    {
        hak::construct_spell_end_vector(&self.actual_key_strokes, self.effective_candidate(), &self.spell)
    }

    /// Returns the numbers of wrong key strokes of this chunk gathered by the key stroke
    /// positions of `ideal_candidate`.
    pub fn wrong_key_stroke_count_of_ideal_key_stroke_index(&self, ideal_candidate: &ChunkKeyStrokeCandidate) -> (r: Vec<usize>)
        requires
            self.wf(),
            ideal_candidate.wf(),
            hak::correct_count(self.spec_actual()) <= self.spec_effective().spec_whole().len(),
            crate::statistics::multi_target_position_convert::positive_counts(self.spec_effective().spec_key_stroke().spec_element_count()),
            crate::statistics::multi_target_position_convert::positive_counts(ideal_candidate.spec_key_stroke().spec_element_count().spec_pseudo(self.spec_spell().spec_count())),
            self.spec_effective().spec_key_stroke().spec_element_count().fits_spell(self.spec_spell().spec_count()),
            ideal_candidate.spec_key_stroke().spec_element_count().fits_spell(self.spec_spell().spec_count()),
        ensures
            r@.len() == self.spec_ideal_wrong_counts(*ideal_candidate).len(),
            forall|k: int| 0 <= k < r@.len() ==> r@[k] == self.spec_ideal_wrong_counts(*ideal_candidate)[k],
    {
        hak::wrong_key_stroke_count_of_ideal_key_stroke_index(
            self.actual_key_strokes.as_slice(),
            self.effective_candidate(),
            ideal_candidate,
            &self.spell,
        )
    }

    /// The numbers of wrong key strokes of this chunk gathered by the key stroke positions of
    /// `ideal`.
    pub open spec fn spec_ideal_wrong_counts(self, ideal: ChunkKeyStrokeCandidate) -> Seq<int> {
        hak::ideal_wrong_counts(
            hak::wrong_counts(self.spec_actual()),
            self.spec_effective().spec_key_stroke().spec_element_count(),
            ideal.spec_key_stroke().spec_element_count(),
            self.spec_spell().spec_count(),
        )
    }

    /// Returns how many spell characters a key stroke of the effective candidate stands for.
    pub fn effective_spell_count(&self) -> (r: usize)
        requires
            self.wf(),
        ensures
            r == hak::spec_effective_spell_count(self.spec_effective(), self.spec_spell()),
    {
        hak::effective_spell_count(self.effective_candidate(), &self.spell)
    }

    /// Returns the number of wrong key strokes typed before the correct key strokes of the
    /// element `element_index` of the effective candidate.
    pub fn wrong_key_stroke_count_of_element_index(&self, element_index: ChunkElementIndex) -> (r: usize)
        requires
            self.wf(),
        ensures
            r == hak::element_wrong_sum(hak::wrong_counts(self.spec_actual()), self.spec_effective(), element_index),
    {
        hak::wrong_key_stroke_count_of_element_index(&self.actual_key_strokes, self.effective_candidate(), element_index)
    }

    /// Returns the wrong key strokes typed while a key stroke of the element `element_index`
    /// of the effective candidate was expected.
    pub fn wrong_key_strokes_of_element_index(&self, element_index: ChunkElementIndex) -> (r: Vec<ActualKeyStroke>)
        requires
            self.wf(),
        ensures
            r@ == hak::wrong_of_element(self.spec_actual(), self.spec_effective(), element_index),
    {
        hak::wrong_key_strokes_of_element_index(&self.actual_key_strokes, self.effective_candidate(), element_index)
    }

    /// Returns the positions, shifted by `offset`, of the spell elements for which a wrong
    /// key stroke was typed.
    pub fn wrong_spell_element_positions(&self, offset: usize) -> (r: Vec<usize>)
        requires
            self.wf(),
            offset + 1 <= usize::MAX,
        ensures
            r@.len() == hak::spec_wrong_spell_element_positions(self.spec_actual(), self.spec_effective(), offset as int).len(),
            forall|k: int| 0 <= k < r@.len() ==> r@[k] == hak::spec_wrong_spell_element_positions(self.spec_actual(), self.spec_effective(), offset as int)[k],
    {
        hak::wrong_spell_element_positions(&self.actual_key_strokes, self.effective_candidate(), offset)
    }
}

/// Returns the spell cursor of a chunk of spell `spell` typed with the candidate `c`, at key
/// stroke `cursor`.
pub fn spell_cursor_of(c: &ChunkKeyStrokeCandidate, spell: &ChunkSpell, cursor: usize) -> (r: ChunkSpellCursorPosition)
    requires
        c.wf(),
    ensures
        r == spec_spell_cursor(*c, *spell, cursor as int),
{
    match c.belonging_element_index_of_key_stroke(cursor) {
        Some(ChunkElementIndex::OnlyFirst) => if spell.is_double_char() {
            ChunkSpellCursorPosition::DoubleCombined
        } else {
            ChunkSpellCursorPosition::Single
        },
        Some(ChunkElementIndex::DoubleFirst) => ChunkSpellCursorPosition::DoubleFirst,
        Some(ChunkElementIndex::DoubleSecond) => ChunkSpellCursorPosition::DoubleSecond,
        None => if c.key_stroke().is_double_splitted() {
            ChunkSpellCursorPosition::DoubleSecond
        } else if c.key_stroke().is_double() {
            ChunkSpellCursorPosition::DoubleCombined
        } else {
            ChunkSpellCursorPosition::Single
        },
    }
}

/// Returns the spell of the element `index` of a chunk spell; a single character spell has
/// only its whole spell.
pub fn element_spell(spell: &ChunkSpell, index: ChunkElementIndex) -> (r: ChunkSpell)
    requires
        spell.wf(),
    ensures
        r.wf(),
        r.spec_chars() == match (if spell is DoubleChar { index } else { ChunkElementIndex::OnlyFirst }) {
            ChunkElementIndex::OnlyFirst => spell.spec_chars(),
            ChunkElementIndex::DoubleFirst => seq![spell.spec_chars()[0]],
            ChunkElementIndex::DoubleSecond => seq![spell.spec_chars()[1]],
        },
{
    let adjusted = if spell.is_double_char() {
        index
    } else {
        ChunkElementIndex::OnlyFirst
    };
    spell.spell_at_index(adjusted)
}

/// The spell cursor of a chunk whose effective candidate is `c`, at key stroke `cursor`.
pub open spec fn spec_spell_cursor(c: ChunkKeyStrokeCandidate, spell: ChunkSpell, cursor: int) -> ChunkSpellCursorPosition {
    match c.spec_key_stroke().spec_belonging_element(cursor) {
        Some(ChunkElementIndex::OnlyFirst) => if spell is DoubleChar {
            ChunkSpellCursorPosition::DoubleCombined
        } else {
            ChunkSpellCursorPosition::Single
        },
        Some(ChunkElementIndex::DoubleFirst) => ChunkSpellCursorPosition::DoubleFirst,
        Some(ChunkElementIndex::DoubleSecond) => ChunkSpellCursorPosition::DoubleSecond,
        None => if c.spec_key_stroke() is DoubleSplitted {
            ChunkSpellCursorPosition::DoubleSecond
        } else if c.spec_key_stroke() is Double {
            ChunkSpellCursorPosition::DoubleCombined
        } else {
            ChunkSpellCursorPosition::Single
        },
    }
}

} // verus!
