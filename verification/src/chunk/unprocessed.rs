//! Chunks whose key stroke candidates are known but which are not typed yet.
use vstd::prelude::*;

use super::key_stroke_candidate::{
    all_wf, is_min_candidate_index, meets_head, min_candidate_index, spec_prefix,
    ChunkKeyStrokeCandidate,
};
use super::{spec_valid_chunk_spell, ChunkSpell};
use super::inflight::ChunkInflight;
use crate::key_stroke::KeyStrokeChar;
use crate::primitives::NonZeroUsize;
use crate::spell::SpellString;

verus! {

/// A chunk before typing: its spell, its key stroke candidates and the ideal candidate, the
/// one that is the shortest to type when key strokes were assigned.
#[derive(Debug, Clone, PartialEq, Eq, Hash)]
pub struct ChunkUnprocessed {
    spell: ChunkSpell,
    key_stroke_candidates: Vec<ChunkKeyStrokeCandidate>,
    ideal_candidate: ChunkKeyStrokeCandidate,
}

/// Whether two candidate lists hold the same candidates in the same order.
pub open spec fn same_candidates(a: Seq<ChunkKeyStrokeCandidate>, b: Seq<ChunkKeyStrokeCandidate>) -> bool {
    &&& a.len() == b.len()
    &&& forall|i: int| 0 <= i < a.len() ==> (#[trigger] a[i]).same_as(b[i])
}

impl ChunkUnprocessed {
    pub closed spec fn spec_spell(self) -> ChunkSpell {
        self.spell
    }

    pub closed spec fn spec_candidates(self) -> Seq<ChunkKeyStrokeCandidate> {
        self.key_stroke_candidates@
    }

    pub closed spec fn spec_ideal(self) -> ChunkKeyStrokeCandidate {
        self.ideal_candidate
    }

    /// The spell is well formed, there is a candidate, and every candidate is well formed.
    pub open spec fn wf(self) -> bool {
        &&& self.spec_spell().wf()
        &&& self.spec_candidates().len() > 0
        &&& all_wf(self.spec_candidates())
        &&& self.spec_ideal().wf()
    }

    pub fn new(
        spell: SpellString,
        key_stroke_candidates: Vec<ChunkKeyStrokeCandidate>,
        ideal_candidate: ChunkKeyStrokeCandidate,
    ) -> (r: Self)
        requires
            spec_valid_chunk_spell(spell@),
        ensures
            r.spec_spell().spec_chars() == spell@,
            r.spec_spell().wf(),
            r.spec_candidates() == key_stroke_candidates@,
            r.spec_ideal() == ideal_candidate,
    {
        ChunkUnprocessed { spell: ChunkSpell::new(spell), key_stroke_candidates, ideal_candidate }
    }

    /// The chunk of an already built chunk spell.
    pub fn from_parts(
        spell: ChunkSpell,
        key_stroke_candidates: Vec<ChunkKeyStrokeCandidate>,
        ideal_candidate: ChunkKeyStrokeCandidate,
    ) -> (r: Self)
        ensures
            r.spec_spell() == spell,
            r.spec_candidates() == key_stroke_candidates@,
            r.spec_ideal() == ideal_candidate,
    {
        ChunkUnprocessed { spell, key_stroke_candidates, ideal_candidate }
    }

    /// Splits this chunk into its parts.
    pub fn into_parts(self) -> (r: (ChunkSpell, Vec<ChunkKeyStrokeCandidate>, ChunkKeyStrokeCandidate))
        ensures
            r.0 == self.spec_spell(),
            r.1@ == self.spec_candidates(),
            r.2 == self.spec_ideal(),
    {
        (self.spell, self.key_stroke_candidates, self.ideal_candidate)
    }

    /// A copy of this chunk.
    pub fn duplicate(&self) -> (r: Self)
        ensures
            r.spec_spell().same_as(self.spec_spell()),
            same_candidates(r.spec_candidates(), self.spec_candidates()),
            r.spec_ideal().same_as(self.spec_ideal()),
            self.wf() ==> r.wf(),
    {
        let mut v: Vec<ChunkKeyStrokeCandidate> = Vec::new();
        let mut i: usize = 0;
        while i < self.key_stroke_candidates.len()
            invariant
                i <= self.key_stroke_candidates@.len(),
                v@.len() == i,
                forall|j: int| 0 <= j < i ==> (#[trigger] v@[j]).same_as(self.key_stroke_candidates@[j]),
                forall|j: int| 0 <= j < i ==> self.key_stroke_candidates@[j].wf() ==> (#[trigger] v@[j]).wf(),
            decreases self.key_stroke_candidates@.len() - i,
        {
            v.push(self.key_stroke_candidates[i].duplicate());
            i = i + 1;
        }
        ChunkUnprocessed {
            spell: self.spell.duplicate(),
            key_stroke_candidates: v,
            ideal_candidate: self.ideal_candidate.duplicate(),
        }
    }

    /// Returns the spell of this chunk.
    pub fn spell(&self) -> (r: &ChunkSpell)
        ensures
            *r == self.spec_spell(),
    {
        &self.spell
    }

    /// Returns the key stroke candidates of this chunk.
    pub fn key_stroke_candidates(&self) -> (r: &[ChunkKeyStrokeCandidate])
        ensures
            r@ == self.spec_candidates(),
    {
        self.key_stroke_candidates.as_slice()
    }

    /// Returns the ideal key stroke candidate of this chunk.
    pub fn ideal_key_stroke_candidate(&self) -> (r: &ChunkKeyStrokeCandidate)
        ensures
            *r == self.spec_ideal(),
    {
        &self.ideal_candidate
    }

    /// Returns the first candidate with the fewest key strokes among those meeting the head
    /// restriction.
    pub fn min_candidate(&self, chunk_head_striction: Option<KeyStrokeChar>) -> (r: &ChunkKeyStrokeCandidate)
        requires
            self.wf(),
            exists|j: int|
                0 <= j < self.spec_candidates().len() && meets_head(
                    #[trigger] self.spec_candidates()[j],
                    chunk_head_striction,
                ),
        ensures
            exists|k: int|
                is_min_candidate_index(self.spec_candidates(), chunk_head_striction, k) && *r
                    == self.spec_candidates()[k],
    {
        let k = min_candidate_index(&self.key_stroke_candidates, chunk_head_striction);
        &self.key_stroke_candidates[k]
    }

    /// Calculates the minimum number of key strokes which type this chunk.
    pub fn calc_min_key_stroke_count(&self) -> (r: usize)
        requires
            self.wf(),
        ensures
            r == spec_min_count(self.spec_candidates()),
            exists|k: int|
                is_min_candidate_index(self.spec_candidates(), None, k) && r
                    == self.spec_candidates()[k].spec_whole().len(),
    {
        assert(meets_head(self.spec_candidates()[0], None));
        let r = self.min_candidate(None).calc_key_stroke_count();
        proof {
            let k = choose|k: int|
                is_min_candidate_index(self.spec_candidates(), None, k) && r
                    == self.spec_candidates()[k].spec_whole().len();
            lemma_min_index_count(self.spec_candidates(), k);
        }
        r
    }

    /// Restricts the candidates of this chunk to `key_stroke_count_striction` key strokes.
    /// Ex. the chunk "し" has the candidates "si", "shi" and "ci"; restricted to 1 key stroke
    /// they become "s" and "c".
    ///
    /// This is meant for the last chunk of a query. Candidates which become equal are merged,
    /// the first one being kept, and the first candidate becomes the ideal one.
    #[verifier::spinoff_prover]
    #[verifier::rlimit(50)]
    pub fn strict_key_stroke_count(&mut self, key_stroke_count_striction: NonZeroUsize)
        requires
            old(self).wf(),
        ensures
            final(self).wf(),
            final(self).spec_spell() == old(self).spec_spell(),
            forall|i: int|
                0 <= i < final(self).spec_candidates().len() ==> exists|j: int|
                    0 <= j < old(self).spec_candidates().len() && (#[trigger] final(self).spec_candidates()[i]).spec_whole()
                        == prefix_of(old(self).spec_candidates(), key_stroke_count_striction.spec_get() as int, j)
                        && restricted_from(
                        final(self).spec_candidates()[i],
                        old(self).spec_candidates()[j],
                        key_stroke_count_striction.spec_get() as int,
                    ),
            forall|j: int|
                0 <= j < old(self).spec_candidates().len() ==> exists|i: int|
                    0 <= i < final(self).spec_candidates().len() && final(self).spec_candidates()[i].spec_whole()
                        == #[trigger] prefix_of(old(self).spec_candidates(), key_stroke_count_striction.spec_get() as int, j),
            forall|i: int, k: int|
                0 <= i < k < final(self).spec_candidates().len() ==> (#[trigger] final(self).spec_candidates()[i]).spec_whole()
                    != (#[trigger] final(self).spec_candidates()[k]).spec_whole(),
            final(self).spec_ideal().same_as(final(self).spec_candidates()[0]),
            key_stroke_count_striction.spec_get() <= spec_min_count(old(self).spec_candidates())
                ==> spec_min_count(final(self).spec_candidates()) == key_stroke_count_striction.spec_get(),
            whole_seq(final(self).spec_candidates()) == first_occurrences(
                restricted_wholes(old(self).spec_candidates(), key_stroke_count_striction.spec_get() as int),
            ),
    {
        let ghost n = key_stroke_count_striction.spec_get() as int;
        let ghost olds = self.key_stroke_candidates@;
        let limit = key_stroke_count_striction.get();
        let mut new_candidates: Vec<ChunkKeyStrokeCandidate> = Vec::new();
        let mut i: usize = 0;
        while i < self.key_stroke_candidates.len()
            invariant
                olds == self.key_stroke_candidates@,
                all_wf(olds),
                olds.len() > 0,
                i <= olds.len(),
                limit == n,
                n == key_stroke_count_striction.spec_get() as int,
                all_wf(new_candidates@),
                i > 0 ==> new_candidates@.len() > 0,
                forall|a: int|
                    0 <= a < new_candidates@.len() ==> exists|j: int|
                        0 <= j < i && (#[trigger] new_candidates@[a]).spec_whole() == prefix_of(olds, n, j)
                            && restricted_from(new_candidates@[a], olds[j], n),
                forall|j: int|
                    0 <= j < i ==> exists|a: int|
                        0 <= a < new_candidates@.len() && new_candidates@[a].spec_whole() == #[trigger] prefix_of(olds, n, j),
                forall|a: int, b: int|
                    0 <= a < b < new_candidates@.len() ==> (#[trigger] new_candidates@[a]).spec_whole()
                        != (#[trigger] new_candidates@[b]).spec_whole(),
                whole_seq(new_candidates@) == first_occurrences(restricted_wholes(olds, n).take(i as int)),
            decreases olds.len() - i,
        {

            let candidate = Self::restricted_candidate(&self.key_stroke_candidates[i], key_stroke_count_striction);
            assert(candidate.spec_whole() == prefix_of(olds, n, i as int));
            let whole = candidate.whole_key_stroke();
            let found = Self::find_whole(&new_candidates, &whole);
            let ghost before = new_candidates@;
            proof {
                lemma_first_occurrences_step(olds, n, i as int, before, found is None);
            }
            if found.is_none() {
                new_candidates.push(candidate);
                proof {
                    assert(whole_seq(new_candidates@) =~= whole_seq(before).push(candidate.spec_whole()));
                    assert forall|x: int|
                        0 <= x < new_candidates@.len() implies exists|j: int|
                            0 <= j < i + 1 && (#[trigger] new_candidates@[x]).spec_whole() == prefix_of(olds, n, j)
                                && restricted_from(new_candidates@[x], olds[j], n) by {
                        if x < before.len() {
                            assert(new_candidates@[x] == before[x]);
                        } else {
                            assert(new_candidates@[x].spec_whole() == prefix_of(olds, n, i as int));
                        }
                    }
                    assert forall|j: int|
                        0 <= j < i + 1 implies exists|x: int|
                            0 <= x < new_candidates@.len() && new_candidates@[x].spec_whole() == #[trigger] prefix_of(olds, n, j) by {
                        if j < i {
                            let x = choose|x: int|
                                0 <= x < before.len() && before[x].spec_whole() == prefix_of(olds, n, j);
                            assert(new_candidates@[x] == before[x]);
                        } else {
                            assert(new_candidates@[before.len() as int].spec_whole() == prefix_of(olds, n, j));
                        }
                    }
                }
            } else {
                proof {
                    let x = found->0 as int;
                    assert(new_candidates@[x].spec_whole() == prefix_of(olds, n, i as int));
                }
            }
            i = i + 1;
        }
        proof {
            assert(restricted_wholes(olds, n).take(olds.len() as int) =~= restricted_wholes(olds, n));
            if n <= spec_min_count(olds) {
                lemma_min_count_bound(olds);
                assert forall|a: int| 0 <= a < new_candidates@.len() implies (#[trigger] new_candidates@[a]).spec_whole().len() == n by {
                    let j = choose|j: int| 0 <= j < olds.len() && (#[trigger] new_candidates@[a]).spec_whole() == prefix_of(olds, n, j);
                    assert(spec_min_count(olds) <= olds[j].spec_whole().len());
                }
                lemma_min_count_uniform(new_candidates@, n);
            }
        }
        let ideal = new_candidates[0].duplicate();
        self.ideal_candidate = ideal;
        self.key_stroke_candidates = new_candidates;
    }

    /// The candidate restricted to `n` key strokes when it is longer or delayed confirmed,
    /// otherwise a copy of it.
    fn restricted_candidate(c: &ChunkKeyStrokeCandidate, n: NonZeroUsize) -> (r: ChunkKeyStrokeCandidate)
        requires
            c.wf(),
        ensures
            r.wf(),
            r.spec_whole() == spec_prefix(c.spec_whole(), n.spec_get() as int),
            restricted_from(r, *c, n.spec_get() as int),
    {
        let mut candidate = c.duplicate();
        if candidate.calc_key_stroke_count() > n.get() || candidate.is_delayed_confirmed_candidate() {
            candidate.strict_key_stroke_count(n);
        } else {
            assert(spec_prefix(c.spec_whole(), n.spec_get() as int) =~= c.spec_whole());
        }
        candidate
    }

    /// The index of a candidate whose whole key strokes are `whole`, if any.
    fn find_whole(candidates: &Vec<ChunkKeyStrokeCandidate>, whole: &crate::key_stroke::KeyStrokeString) -> (r: Option<usize>)
        ensures
            r is None ==> forall|b: int| 0 <= b < candidates@.len() ==> (#[trigger] candidates@[b]).spec_whole() != whole@,
            r matches Some(x) ==> x < candidates@.len() && candidates@[x as int].spec_whole() == whole@,
    {
        let mut a: usize = 0;
        while a < candidates.len()
            invariant
                a <= candidates@.len(),
                forall|b: int| 0 <= b < a ==> (#[trigger] candidates@[b]).spec_whole() != whole@,
            decreases candidates@.len() - a,
        {
            if candidates[a].whole_key_stroke().same_as(whole) {
                return Some(a);
            }
            a = a + 1;
        }
        None
    }
}

/// The candidate `c` is `o` restricted to `n` key strokes: it waits for no next chunk; it
/// requires nothing of the next chunk when `o` was cut or waited for it, and otherwise what `o`
/// required.
pub open spec fn restricted_from(c: ChunkKeyStrokeCandidate, o: ChunkKeyStrokeCandidate, n: int) -> bool {
    &&& c.spec_delayed() is None
    &&& (o.spec_whole().len() > n || o.spec_delayed() is Some) ==> c.spec_next_chunk_head_constraint() is None
    &&& (o.spec_whole().len() <= n && o.spec_delayed() is None) ==> c.spec_next_chunk_head_constraint()
        == o.spec_next_chunk_head_constraint()
}

/// The key strokes of the candidates `s`, in order.
pub open spec fn whole_seq(s: Seq<ChunkKeyStrokeCandidate>) -> Seq<Seq<char>> {
    Seq::new(s.len(), |i: int| s[i].spec_whole())
}

/// The key strokes of the candidates `s` restricted to their first `n`, in order.
pub open spec fn restricted_wholes(s: Seq<ChunkKeyStrokeCandidate>, n: int) -> Seq<Seq<char>> {
    Seq::new(s.len(), |j: int| prefix_of(s, n, j))
}

/// The elements of `s`, each once, in the order in which they first occur.
pub open spec fn first_occurrences(s: Seq<Seq<char>>) -> Seq<Seq<char>>
    decreases s.len(),
{
    if s.len() == 0 {
        Seq::empty()
    } else {
        let p = first_occurrences(s.drop_last());
        if p.contains(s.last()) {
            p
        } else {
            p.push(s.last())
        }
    }
}

/// One more restricted candidate extends the first occurrences when its key strokes are new.
proof fn lemma_first_occurrences_step(
    olds: Seq<ChunkKeyStrokeCandidate>,
    n: int,
    i: int,
    before: Seq<ChunkKeyStrokeCandidate>,
    is_new: bool,
)
    requires
        0 <= i < olds.len(),
        whole_seq(before) == first_occurrences(restricted_wholes(olds, n).take(i)),
        is_new == forall|b: int| 0 <= b < before.len() ==> (#[trigger] before[b]).spec_whole() != prefix_of(olds, n, i),
    ensures
        first_occurrences(restricted_wholes(olds, n).take(i + 1)) == if is_new {
            whole_seq(before).push(prefix_of(olds, n, i))
        } else {
            whole_seq(before)
        },
{
    let rw = restricted_wholes(olds, n);
    assert(rw.take(i + 1).drop_last() =~= rw.take(i));
    assert(rw.take(i + 1).last() == prefix_of(olds, n, i));
    let d = whole_seq(before);
    if is_new {
        if d.contains(prefix_of(olds, n, i)) {
            let x = choose|x: int| 0 <= x < d.len() && d[x] == prefix_of(olds, n, i);
            assert(before[x].spec_whole() == prefix_of(olds, n, i));
        }
    } else {
        let b = choose|b: int| 0 <= b < before.len() && (#[trigger] before[b]).spec_whole() == prefix_of(olds, n, i);
        assert(d[b] == prefix_of(olds, n, i));
        assert(d.contains(prefix_of(olds, n, i)));
    }
}

/// The fewest key strokes of a candidate of `s` (0 when there is none).
pub open spec fn spec_min_count(s: Seq<ChunkKeyStrokeCandidate>) -> int
    decreases s.len(),
{
    if s.len() == 0 {
        0
    } else if s.len() == 1 {
        s[0].spec_whole().len() as int
    } else {
        let m = spec_min_count(s.drop_last());
        let l = s.last().spec_whole().len() as int;
        if l < m {
            l
        } else {
            m
        }
    }
}

/// The fewest key strokes is at most the key strokes of each candidate, and is those of one
/// of them.
pub proof fn lemma_min_count_bound(s: Seq<ChunkKeyStrokeCandidate>)
    requires
        s.len() > 0,
    ensures
        forall|j: int| 0 <= j < s.len() ==> spec_min_count(s) <= (#[trigger] s[j]).spec_whole().len(),
        exists|k: int| 0 <= k < s.len() && spec_min_count(s) == (#[trigger] s[k]).spec_whole().len(),
    decreases s.len(),
{
    if s.len() > 1 {
        let p = s.drop_last();
        lemma_min_count_bound(p);
        assert forall|j: int| 0 <= j < s.len() implies spec_min_count(s) <= (#[trigger] s[j]).spec_whole().len() by {
            if j < s.len() - 1 {
                assert(s[j] == p[j]);
            }
        }
        let k = choose|k: int| 0 <= k < p.len() && spec_min_count(p) == (#[trigger] p[k]).spec_whole().len();
        if s.last().spec_whole().len() < spec_min_count(p) {
            assert(spec_min_count(s) == s[s.len() - 1].spec_whole().len());
        } else {
            assert(s[k] == p[k]);
        }
    } else {
        assert(spec_min_count(s) == s[0].spec_whole().len());
    }
}

/// The first candidate of the fewest key strokes has exactly the fewest key strokes.
pub proof fn lemma_min_index_count(s: Seq<ChunkKeyStrokeCandidate>, k: int)
    requires
        is_min_candidate_index(s, None, k),
    ensures
        s[k].spec_whole().len() == spec_min_count(s),
{
    lemma_min_count_bound(s);
    let m = choose|m: int| 0 <= m < s.len() && spec_min_count(s) == (#[trigger] s[m]).spec_whole().len();
    assert(meets_head(s[m], None));
    assert(s[k].spec_whole().len() <= s[m].spec_whole().len());
    assert(spec_min_count(s) <= s[k].spec_whole().len());
}

/// When every candidate has `n` key strokes, the fewest key strokes is `n`.
pub proof fn lemma_min_count_uniform(s: Seq<ChunkKeyStrokeCandidate>, n: int)
    requires
        s.len() > 0,
        forall|j: int| 0 <= j < s.len() ==> (#[trigger] s[j]).spec_whole().len() == n,
    ensures
        spec_min_count(s) == n,
{
    lemma_min_count_bound(s);
    let k = choose|k: int| 0 <= k < s.len() && spec_min_count(s) == (#[trigger] s[k]).spec_whole().len();
}

/// The first `n` key strokes of candidate `j`.
pub open spec fn prefix_of(s: Seq<ChunkKeyStrokeCandidate>, n: int, j: int) -> Seq<char> {
    spec_prefix(s[j].spec_whole(), n)
}

/// The candidates of `s` meeting (when `keep`) or not meeting (when not `keep`) the head
/// restriction `head`, in their order.
pub open spec fn split_by_head(s: Seq<ChunkKeyStrokeCandidate>, head: Option<KeyStrokeChar>, keep: bool) -> Seq<ChunkKeyStrokeCandidate>
    decreases s.len(),
{
    if s.len() == 0 {
        Seq::empty()
    } else {
        let p = split_by_head(s.drop_last(), head, keep);
        if meets_head(s.last(), head) == keep {
            p.push(s.last())
        } else {
            p
        }
    }
}

/// No head restriction keeps every candidate, in order.
pub proof fn lemma_split_by_no_head(s: Seq<ChunkKeyStrokeCandidate>)
    ensures
        split_by_head(s, None, true) == s,
    decreases s.len(),
{
    if s.len() > 0 {
        lemma_split_by_no_head(s.drop_last());
        assert(s.drop_last().push(s.last()) =~= s);
    }
}

/// The candidates split by a head restriction come from the split sequence and meet it as
/// asked; a candidate meeting it is kept.
pub proof fn lemma_split_by_head(s: Seq<ChunkKeyStrokeCandidate>, head: Option<KeyStrokeChar>, keep: bool)
    ensures
        forall|x: int| 0 <= x < split_by_head(s, head, keep).len() ==> s.contains(#[trigger] split_by_head(s, head, keep)[x])
            && meets_head(split_by_head(s, head, keep)[x], head) == keep,
        (exists|j: int| 0 <= j < s.len() && meets_head(#[trigger] s[j], head) == keep) ==> split_by_head(s, head, keep).len() > 0,
    decreases s.len(),
{
    if s.len() > 0 {
        lemma_split_by_head(s.drop_last(), head, keep);
        let p = split_by_head(s.drop_last(), head, keep);
        assert forall|x: int| 0 <= x < split_by_head(s, head, keep).len() implies s.contains(#[trigger] split_by_head(s, head, keep)[x])
            && meets_head(split_by_head(s, head, keep)[x], head) == keep by {
            if x < p.len() {
                assert(split_by_head(s, head, keep)[x] == p[x]);
                assert(s.drop_last().contains(p[x]));
                let y = choose|y: int| 0 <= y < s.drop_last().len() && s.drop_last()[y] == p[x];
                assert(s[y] == p[x]);
            } else {
                assert(split_by_head(s, head, keep)[x] == s[s.len() - 1]);
            }
        }
        if exists|j: int| 0 <= j < s.len() && meets_head(#[trigger] s[j], head) == keep {
            let j = choose|j: int| 0 <= j < s.len() && meets_head(#[trigger] s[j], head) == keep;
            if j < s.len() - 1 {
                assert(meets_head(s.drop_last()[j], head) == keep);
            }
        }
    }
}

impl ChunkUnprocessed {
    /// Starts typing this chunk: the candidates not meeting the head restriction left by the
    /// chunk before are ruled out.
    pub fn into_inflight(self, head_striction_from_previous: Option<KeyStrokeChar>) -> (r: ChunkInflight)
        requires
            self.wf(),
            exists|j: int| 0 <= j < self.spec_candidates().len() && meets_head(#[trigger] self.spec_candidates()[j], head_striction_from_previous),
        ensures
            r.wf(),
            r.spec_spell() == self.spec_spell(),
            r.spec_candidates() == split_by_head(self.spec_candidates(), head_striction_from_previous, true),
            r.spec_inactive() == split_by_head(self.spec_candidates(), head_striction_from_previous, false),
            r.spec_ideal() == self.spec_ideal(),
            r.spec_cursor() == 0,
            r.spec_actual().len() == 0,
            r.spec_pending().len() == 0,
    {
        let head = head_striction_from_previous;
        let ChunkUnprocessed { spell, key_stroke_candidates, ideal_candidate } = self;
        let ghost all = key_stroke_candidates@;
        let mut rest = key_stroke_candidates;
        let total = rest.len();
        let mut active: Vec<ChunkKeyStrokeCandidate> = Vec::new();
        let mut inactive: Vec<ChunkKeyStrokeCandidate> = Vec::new();
        let mut i: usize = 0;
        while rest.len() > 0
            invariant
                all.len() == total,
                all_wf(all),
                i + rest@.len() == all.len(),
                rest@ == all.subrange(i as int, all.len() as int),
                active@ == split_by_head(all.take(i as int), head, true),
                inactive@ == split_by_head(all.take(i as int), head, false),
            decreases rest@.len(),
        {
            let c = rest.remove(0);
            proof {
                assert(c == all[i as int]);
                assert(all.take(i + 1).drop_last() == all.take(i as int));
                assert(rest@ == all.subrange(i + 1, all.len() as int));
            }
            let meets = match head {
                None => true,
                Some(k) => c.calc_key_stroke_count() > 0 && c.key_stroke_char_at_position(0).same_as(&k),
            };
            if meets {
                active.push(c);
            } else {
                inactive.push(c);
            }
            i = i + 1;
        }
        proof {
            assert(all.take(i as int) == all);
            lemma_split_by_head(all, head, true);
            lemma_split_by_head(all, head, false);
        }
        ChunkInflight::start(spell, active, inactive, ideal_candidate)
    }
}

} // verus!
