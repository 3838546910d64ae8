//! Queries: the vocabularies picked for a typing session, and their chunks with key stroke
//! candidates.
use vstd::prelude::*;

use crate::chunk::candidate_unappended::{append_key_stroke_to_chunks, candidates_follow_dictionary, candidates_generated, ChunkCandidateUnappended};
use crate::chunk::unprocessed::{spec_min_count, ChunkUnprocessed};
use crate::chunk::ChunkSpell;
use crate::primitives::NonZeroUsize;
use crate::spell::SpellString;
use crate::text::chars_to_string;
use crate::vocabulary::{
    chunk_spells_of, describes, spell_of, view_count_of, view_positions_of, VocabularyEntry,
    VocabularyInfo, VocabularySpellElement,
};

verus! {

/// How many vocabularies a query has.
#[derive(Debug, Clone, Copy, PartialEq, Eq, Hash)]
pub enum VocabularyQuantifier {
    /// Vocabularies are picked until the query needs this many key strokes; the query is then
    /// cut to need exactly this many.
    KeyStroke(NonZeroUsize),
    /// This many vocabularies are picked (a separator counts as one).
    Vocabulary(NonZeroUsize),
}

/// What stands between the vocabularies of a query.
#[derive(Debug, PartialEq, Eq, Hash)]
pub enum VocabularySeparator {
    /// Nothing.
    Nothing,
    /// A white space.
    WhiteSpace,
    /// The given vocabulary.
    Vocabulary(VocabularyEntry),
}

/// The order in which vocabularies are picked from the list.
#[derive(Debug, Clone, Copy, PartialEq, Eq, Hash)]
pub enum VocabularyOrder {
    /// At random.
    Random,
    /// In the order of the list, starting again from its head after its end.
    InOrder,
}

/// `RngCore::try_fill_bytes` of `rand::rngs::OsRng` on eight bytes, read as a little-endian
/// integer: a value drawn from the operating system's random source, or `None` when that source
/// reports an error. Nothing is promised of the value.
#[verifier::external_body]
fn random_usize() -> (r: Option<usize>) {
    let mut bytes = [0u8; 8];
    match rand::RngCore::try_fill_bytes(&mut rand::rngs::OsRng, &mut bytes) {
        Ok(()) => Some(u64::from_le_bytes(bytes) as usize),
        Err(_) => None,
    }
}

/// The index that follows `prev` in a list of `len` vocabularies picked in order.
pub open spec fn in_order_index(prev: Option<usize>, len: int) -> int {
    match prev {
        Some(p) => (p + 1) % len,
        None => 0,
    }
}

/// The index that follows `prev` in a list of `len` vocabularies picked in order.
fn in_order_next(prev_index: Option<usize>, len: usize) -> (r: usize)
    requires
        len > 0,
    ensures
        r < len,
        r == in_order_index(prev_index, len as int),
{
    match prev_index {
        Some(p) => {
            let q = p % len;
            proof {
                vstd::arithmetic::div_mod::lemma_add_mod_noop_right(q as int, 1, len as int);
                vstd::arithmetic::div_mod::lemma_add_mod_noop(p as int, 1, len as int);
                vstd::arithmetic::div_mod::lemma_add_mod_noop_right(p as int % len as int, 1, len as int);
                if q + 1 < len {
                    vstd::arithmetic::div_mod::lemma_small_mod((q + 1) as nat, len as nat);
                } else {
                    vstd::arithmetic::div_mod::lemma_mod_self_0(len as int);
                }
            }
            if q + 1 == len {
                0
            } else {
                q + 1
            }
        },
        None => 0,
    }
}

/// The index picked from a list of `len` vocabularies by the value `drawn` at random: the
/// value modulo the length; the index after `prev` when no value could be drawn.
pub open spec fn drawn_index(drawn: Option<usize>, prev: Option<usize>, len: int) -> int {
    match drawn {
        Some(x) => x as int % len,
        None => in_order_index(prev, len),
    }
}

/// Returns the index of the vocabulary picked from a list of `len` vocabularies by the value
/// `drawn` at random: the value modulo the length (the one after `prev_index` in order when no
/// value could be drawn).
pub fn pick_vocabulary_entry_index(drawn: Option<usize>, prev_index: Option<usize>, len: usize) -> (r: usize)
    requires
        len > 0,
    ensures
        r < len,
        r == drawn_index(drawn, prev_index, len as int),
{
    match drawn {
        Some(x) => x % len,
        None => in_order_next(prev_index, len),
    }
}

/// Every vocabulary of the list can be picked at random: the drawn value `i` picks the `i`-th,
/// and values a whole length apart pick the same one.
pub proof fn law_every_vocabulary_can_be_drawn(prev: Option<usize>, len: usize, i: usize)
    requires
        i < len,
    ensures
        drawn_index(Some(i), prev, len as int) == i,
        i + len <= usize::MAX ==> drawn_index(Some((i + len) as usize), prev, len as int) == drawn_index(Some(i), prev, len as int),
{
    vstd::arithmetic::div_mod::lemma_small_mod(i as nat, len as nat);
    if i + len <= usize::MAX {
        vstd::arithmetic::div_mod::lemma_mod_add_multiples_vanish(i as int, len as int);
    }
}

impl VocabularyOrder {
    /// Returns the index of the next vocabulary of a list of `len` vocabularies, when the
    /// previous one had the index `prev_index`: for `InOrder`, the one after it, wrapping at
    /// the end (the head first); for `Random`, any, drawn at random (the one `InOrder` would
    /// give when no random value can be drawn).
    pub fn next_vocabulary_entry_index(&self, prev_index: Option<usize>, len: usize) -> (r: usize)
        requires
            len > 0,
        ensures
            r < len,
            *self is InOrder ==> r == in_order_index(prev_index, len as int),
    {
        match self {
            VocabularyOrder::Random => pick_vocabulary_entry_index(random_usize(), prev_index, len),
            VocabularyOrder::InOrder => in_order_next(prev_index, len),
        }
    }
}

/// The entry of a single white space.
pub open spec fn is_white_space_entry(e: VocabularyEntry) -> bool {
    &&& e.spec_view() == seq![' ']
    &&& e.spec_spells().len() == 1
    &&& e.spec_spells()[0] is Normal
    &&& e.spec_spells()[0].spec_spell() == seq![' ']
}

/// `e` is the vocabulary put between the vocabularies by `sep`.
pub open spec fn is_separator(e: VocabularyEntry, sep: VocabularySeparator) -> bool {
    match sep {
        VocabularySeparator::Nothing => false,
        VocabularySeparator::WhiteSpace => is_white_space_entry(e),
        VocabularySeparator::Vocabulary(v) => e == v,
    }
}

/// `sepv` is the vocabulary put between the vocabularies by `sep`, if any.
pub open spec fn separator_of(sepv: Option<VocabularyEntry>, sep: VocabularySeparator) -> bool {
    match sepv {
        None => sep is Nothing,
        Some(e) => is_separator(e, sep),
    }
}

/// The entry of a single white space.
fn white_space_entry() -> (r: VocabularyEntry)
    ensures
        is_white_space_entry(r),
        spell_of(r.spec_spells()) == seq![' '],
{
    let mut v: Vec<char> = Vec::new();
    v.push(' ');
    let view = chars_to_string(v.as_slice());
    let spell = SpellString::from_chars(v);
    assert(crate::spell::spec_usable_in_spell(' '));
    let spell = spell.unwrap();
    let spells = vec![VocabularySpellElement::Normal(spell)];
    assert(spells@.len() == 1);
    assert(spells@.last() == spells@[0]);
    assert(spells@[0] is Normal);
    assert(spells@.drop_last() =~= Seq::<VocabularySpellElement>::empty());
    assert(view_count_of(Seq::<VocabularySpellElement>::empty()) == 0);
    assert(view_count_of(spells@) == 1);
    assert(spell_of(Seq::<VocabularySpellElement>::empty()) =~= Seq::<char>::empty());
    assert(spell_of(spells@) =~= seq![' ']);
    VocabularyEntry::new(view, spells).unwrap()
}

impl VocabularySeparator {
    /// Returns the vocabulary put between vocabularies, if any.
    fn is_none(&self) -> (r: bool)
        ensures
            r == (*self is Nothing),
    {
        match self {
            VocabularySeparator::Nothing => true,
            _ => false,
        }
    }
}

/// The spells of the entries, concatenated.
pub open spec fn entries_spell(es: Seq<VocabularyEntry>) -> Seq<char>
    decreases es.len(),
{
    if es.len() == 0 {
        Seq::empty()
    } else {
        entries_spell(es.drop_last()) + spell_of(es.last().spec_spells())
    }
}

/// The spells of unprocessed chunks, concatenated.
pub open spec fn unprocessed_spells_of(chunks: Seq<ChunkUnprocessed>) -> Seq<char>
    decreases chunks.len(),
{
    if chunks.len() == 0 {
        Seq::empty()
    } else {
        unprocessed_spells_of(chunks.drop_last()) + chunks.last().spec_spell().spec_chars()
    }
}

/// The sum of the fewest key strokes of each chunk.
pub open spec fn min_counts_sum(chunks: Seq<ChunkUnprocessed>) -> int
    decreases chunks.len(),
{
    if chunks.len() == 0 {
        0
    } else {
        min_counts_sum(chunks.drop_last()) + spec_min_count(chunks.last().spec_candidates())
    }
}

/// The sum of the chunk counts of vocabularies.
pub open spec fn total_chunk_count(infos: Seq<VocabularyInfo>) -> int
    decreases infos.len(),
{
    if infos.len() == 0 {
        0
    } else {
        total_chunk_count(infos.drop_last()) + infos.last().spec_chunk_count()
    }
}

/// `info` describes the vocabulary `e` (its chunk count aside).
pub open spec fn info_of(info: VocabularyInfo, e: VocabularyEntry) -> bool {
    &&& info.spec_view() == e.spec_view()
    &&& info.spec_spell() == spell_of(e.spec_spells())
    &&& info.spec_view_positions().len() == view_positions_of(e.spec_spells()).len()
    &&& forall|i: int|
        0 <= i < info.spec_view_positions().len() ==> describes(
            #[trigger] info.spec_view_positions()[i],
            view_positions_of(e.spec_spells())[i],
        )
}

/// `new` is `old` restricted to `n` key strokes: the same spell, and as candidates the first
/// `n` key strokes of each old candidate, each once, the first being the ideal one.
pub open spec fn is_restriction(new: ChunkUnprocessed, old: ChunkUnprocessed, n: int) -> bool {
    &&& new.wf()
    &&& new.spec_spell() == old.spec_spell()
    &&& forall|i: int|
        0 <= i < new.spec_candidates().len() ==> exists|j: int|
            0 <= j < old.spec_candidates().len() && (#[trigger] new.spec_candidates()[i]).spec_whole()
                == crate::chunk::unprocessed::prefix_of(old.spec_candidates(), n, j)
                && crate::chunk::unprocessed::restricted_from(new.spec_candidates()[i], old.spec_candidates()[j], n)
    &&& forall|j: int|
        0 <= j < old.spec_candidates().len() ==> exists|i: int|
            0 <= i < new.spec_candidates().len() && new.spec_candidates()[i].spec_whole()
                == #[trigger] crate::chunk::unprocessed::prefix_of(old.spec_candidates(), n, j)
    &&& new.spec_ideal().same_as(new.spec_candidates()[0])
    &&& spec_min_count(new.spec_candidates()) == n
    &&& crate::chunk::unprocessed::whole_seq(new.spec_candidates()) == crate::chunk::unprocessed::first_occurrences(
        crate::chunk::unprocessed::restricted_wholes(old.spec_candidates(), n),
    )
}

/// The chunks of `q` are cut, as `cut_from` says, from the chunks of the vocabularies `picks`
/// with the candidates generated for them.
pub open spec fn cut_from_picks(q: Query, picks: Seq<VocabularyEntry>, t: int) -> bool {
    exists|app: Seq<ChunkUnprocessed>| {
        &&& #[trigger] cut_from(q, app, t)
        &&& unprocessed_spells_of(app) == entries_spell(picks)
        &&& forall|i: int| 0 <= i < app.len() ==> #[trigger] candidates_generated(app, i)
    }
}

/// The chunks of `q` are the first of the chunks `app`, the last of them restricted so that
/// they need exactly `t` key strokes at least: the chunks are kept up to the first one with
/// which the sum of the fewest key strokes reaches `t`.
#[verifier::opaque]
pub open spec fn cut_from(q: Query, app: Seq<ChunkUnprocessed>, t: int) -> bool {
    let k = q.spec_chunks().len() as int;
    &&& 1 <= k <= app.len()
    &&& forall|i: int| 0 <= i < k - 1 ==> #[trigger] q.spec_chunks()[i] == app[i]
    &&& min_counts_sum(app.take(k - 1)) < t <= min_counts_sum(app.take(k))
    &&& is_restriction(q.spec_chunks()[k - 1], app[k - 1], t - min_counts_sum(app.take(k - 1)))
}

/// A query: the vocabularies to type and their chunks.
#[derive(Debug, PartialEq, Eq, Hash)]
pub struct Query {
    vocabulary_infos: Vec<VocabularyInfo>,
    chunks: Vec<ChunkUnprocessed>,
}

impl Query {
    pub closed spec fn spec_infos(self) -> Seq<VocabularyInfo> {
        self.vocabulary_infos@
    }

    pub closed spec fn spec_chunks(self) -> Seq<ChunkUnprocessed> {
        self.chunks@
    }

    /// The query of these vocabularies and chunks.
    pub fn new(vocabulary_infos: Vec<VocabularyInfo>, chunks: Vec<ChunkUnprocessed>) -> (r: Self)
        ensures
            r.spec_infos() == vocabulary_infos@,
            r.spec_chunks() == chunks@,
    {
        Query { vocabulary_infos, chunks }
    }

    /// Splits this query into its vocabularies and its chunks.
    pub fn decompose(self) -> (r: (Vec<VocabularyInfo>, Vec<ChunkUnprocessed>))
        ensures
            r.0@ == self.spec_infos(),
            r.1@ == self.spec_chunks(),
    {
        (self.vocabulary_infos, self.chunks)
    }
}

/// The sum of the fewest key strokes grows with the chunks.
proof fn lemma_min_counts_sum_push(chunks: Seq<ChunkUnprocessed>, k: int)
    requires
        0 <= k < chunks.len(),
    ensures
        min_counts_sum(chunks.take(k + 1)) == min_counts_sum(chunks.take(k)) + spec_min_count(
            chunks[k].spec_candidates(),
        ),
{
    assert(chunks.take(k + 1).drop_last() =~= chunks.take(k));
}

/// The fewest key strokes of a chunk is at least one.
proof fn lemma_min_count_positive(c: ChunkUnprocessed)
    requires
        c.wf(),
    ensures
        spec_min_count(c.spec_candidates()) >= 1,
{
    crate::chunk::unprocessed::lemma_min_count_bound(c.spec_candidates());
    let k = choose|k: int|
        0 <= k < c.spec_candidates().len() && spec_min_count(c.spec_candidates())
            == (#[trigger] c.spec_candidates()[k]).spec_whole().len();
    assert(c.spec_candidates()[k].wf());
}

/// Chunks need at least the key strokes estimated for them, when each does.
proof fn lemma_min_counts_at_least_estimates(app: Seq<ChunkUnprocessed>, cs: Seq<ChunkCandidateUnappended>)
    requires
        app.len() == cs.len(),
        forall|i: int| 0 <= i < app.len() ==> spec_min_count((#[trigger] app[i]).spec_candidates()) >= cs[i].spec_estimate(),
    ensures
        min_counts_sum(app) >= estimates_sum(cs),
    decreases app.len(),
{
    if app.len() > 0 {
        let a = app.drop_last();
        let c = cs.drop_last();
        assert forall|i: int| 0 <= i < a.len() implies spec_min_count((#[trigger] a[i]).spec_candidates()) >= c[i].spec_estimate() by {
            assert(a[i] == app[i]);
            assert(c[i] == cs[i]);
            assert(spec_min_count(app[i].spec_candidates()) >= cs[i].spec_estimate());
        }
        lemma_min_counts_at_least_estimates(a, c);
        assert(spec_min_count(app[app.len() - 1].spec_candidates()) >= cs[cs.len() - 1].spec_estimate());
    }
}

/// Each chunk needs at least one key stroke.
proof fn lemma_min_counts_sum_at_least_len(chunks: Seq<ChunkUnprocessed>)
    requires
        forall|i: int| 0 <= i < chunks.len() ==> (#[trigger] chunks[i]).wf(),
    ensures
        min_counts_sum(chunks) >= chunks.len(),
    decreases chunks.len(),
{
    if chunks.len() > 0 {
        let p = chunks.drop_last();
        assert forall|i: int| 0 <= i < p.len() implies (#[trigger] p[i]).wf() by {
            assert(p[i] == chunks[i]);
        }
        lemma_min_counts_sum_at_least_len(p);
        lemma_min_count_positive(chunks.last());
    }
}

/// The fewest key strokes of a prefix of the chunks are at most those of them all.
proof fn lemma_min_counts_sum_prefix(chunks: Seq<ChunkUnprocessed>, k: int)
    requires
        0 <= k <= chunks.len(),
        forall|i: int| 0 <= i < chunks.len() ==> (#[trigger] chunks[i]).wf(),
    ensures
        min_counts_sum(chunks.take(k)) <= min_counts_sum(chunks),
    decreases chunks.len(),
{
    if k < chunks.len() {
        let p = chunks.drop_last();
        assert(chunks.take(k) =~= p.take(k));
        lemma_min_counts_sum_prefix(p, k);
        lemma_min_count_positive(chunks.last());
    } else {
        assert(chunks.take(k) =~= chunks);
    }
}

/// The chunk count of a prefix of the vocabularies is at most that of them all.
proof fn lemma_total_chunk_count_prefix(infos: Seq<VocabularyInfo>, m: int)
    requires
        0 <= m <= infos.len(),
        forall|i: int| 0 <= i < infos.len() ==> (#[trigger] infos[i]).spec_chunk_count() >= 1,
    ensures
        total_chunk_count(infos.take(m)) <= total_chunk_count(infos),
        total_chunk_count(infos.take(m)) >= m,
    decreases infos.len(),
{
    if m < infos.len() {
        let p = infos.drop_last();
        assert(infos.take(m) =~= p.take(m));
        lemma_total_chunk_count_prefix(p, m);
    } else {
        assert(infos.take(m) =~= infos);
        if infos.len() > 0 {
            let p = infos.drop_last();
            lemma_total_chunk_count_prefix(p, p.len() as int);
            assert(p.take(p.len() as int) =~= p);
        }
    }
}

/// Keeps the chunks up to the first one with which the sum of the fewest key strokes reaches
/// `threshold`, and restricts that one to the key strokes left; `None` when all the chunks
/// together need fewer key strokes.
fn cut_chunks(chunks: Vec<ChunkUnprocessed>, threshold: NonZeroUsize) -> (r: Option<Vec<ChunkUnprocessed>>)
    requires
        forall|i: int| 0 <= i < chunks@.len() ==> (#[trigger] chunks@[i]).wf(),
    ensures
        r is Some <==> min_counts_sum(chunks@) >= threshold.spec_get(),
        r matches Some(q) ==> {
            let k = q@.len() as int;
            let t = threshold.spec_get() as int;
            &&& 1 <= k <= chunks@.len()
            &&& min_counts_sum(chunks@.take(k - 1)) < t <= min_counts_sum(chunks@.take(k))
            &&& forall|i: int| 0 <= i < k - 1 ==> #[trigger] q@[i] == chunks@[i]
            &&& is_restriction(q@[k - 1], chunks@[k - 1], t - min_counts_sum(chunks@.take(k - 1)))
            &&& min_counts_sum(q@) == t
        },
{
    let ghost olds = chunks@;
    let t = threshold.get();
    let (k, acc) = match reach_index(&chunks, t) {
        None => {
            return None;
        },
        Some(p) => p,
    };
    proof {
        lemma_min_counts_sum_prefix(olds, k as int);
    }
    let mut chunks = truncated(chunks, k);
    let mut last = chunks.pop().unwrap();
    let ghost lastold = last;
    proof {
        assert(chunks@ =~= olds.take(k - 1));
        assert(lastold == olds.take(k as int)[k - 1]);
        assert(lastold == olds[k - 1]);
    }
    let n = t - acc;
    let limit = NonZeroUsize::new(n).unwrap();
    last.strict_key_stroke_count(limit);
    let ghost before = chunks@;
    chunks.push(last);
    proof {
        assert(chunks@.drop_last() =~= before);
        lemma_min_counts_sum_push(olds, k - 1);
        assert(min_counts_sum(chunks@) == min_counts_sum(olds.take(k - 1)) + n);
    }
    Some(chunks)
}

/// The number `k` of first chunks with which the sum of the fewest key strokes reaches `t`,
/// with the sum of the first `k - 1`; `None` when all the chunks need fewer.
fn reach_index(chunks: &Vec<ChunkUnprocessed>, t: usize) -> (r: Option<(usize, usize)>)
    requires
        t > 0,
        forall|i: int| 0 <= i < chunks@.len() ==> (#[trigger] chunks@[i]).wf(),
    ensures
        r is None <==> min_counts_sum(chunks@) < t,
        r matches Some((k, acc)) ==> 1 <= k <= chunks@.len() && min_counts_sum(chunks@.take(k - 1)) == acc && acc < t
            && t <= min_counts_sum(chunks@.take(k as int)),
{
    let mut acc: usize = 0;
    let mut k: usize = 0;
    assert(chunks@.take(0) =~= Seq::<ChunkUnprocessed>::empty());
    while k < chunks.len()
        invariant
            forall|i: int| 0 <= i < chunks@.len() ==> (#[trigger] chunks@[i]).wf(),
            k <= chunks@.len(),
            acc == min_counts_sum(chunks@.take(k as int)),
            acc < t,
        decreases chunks@.len() - k,
    {
        let c = chunks[k].calc_min_key_stroke_count();
        proof {
            lemma_min_counts_sum_push(chunks@, k as int);
        }
        if c >= t - acc {
            proof {
                lemma_min_counts_sum_prefix(chunks@, k + 1);
            }
            return Some((k + 1, acc));
        }
        acc = acc + c;
        k = k + 1;
    }
    assert(chunks@.take(k as int) =~= chunks@);
    None
}

/// The first `k` of the chunks.
fn truncated(chunks: Vec<ChunkUnprocessed>, k: usize) -> (r: Vec<ChunkUnprocessed>)
    requires
        k <= chunks@.len(),
    ensures
        r@ == chunks@.take(k as int),
{
    let ghost olds = chunks@;
    let mut chunks = chunks;
    while chunks.len() > k
        invariant
            k <= chunks@.len(),
            chunks@ == olds.take(chunks@.len() as int),
            chunks@.len() <= olds.len(),
        decreases chunks@.len(),
    {
        proof {
            assert(olds.take(chunks@.len() as int).drop_last() =~= olds.take(chunks@.len() - 1));
        }
        chunks.pop();
    }
    assert(olds.take(olds.len() as int) =~= olds);
    chunks
}

/// Keeps the vocabularies up to the one of the `k`-th chunk, whose chunk count is cut to the
/// chunks kept.
fn cut_infos(vocabulary_infos: Vec<VocabularyInfo>, k: usize) -> (r: Vec<VocabularyInfo>)
    requires
        forall|i: int| 0 <= i < vocabulary_infos@.len() ==> (#[trigger] vocabulary_infos@[i]).spec_chunk_count() >= 1,
        1 <= k <= total_chunk_count(vocabulary_infos@),
    ensures
        ({
            let m = r@.len() as int;
            &&& 1 <= m <= vocabulary_infos@.len()
            &&& total_chunk_count(vocabulary_infos@.take(m - 1)) < k <= total_chunk_count(vocabulary_infos@.take(m))
            &&& forall|i: int| 0 <= i < m - 1 ==> #[trigger] r@[i] == vocabulary_infos@[i]
            &&& r@[m - 1].spec_view() == vocabulary_infos@[m - 1].spec_view()
            &&& r@[m - 1].spec_spell() == vocabulary_infos@[m - 1].spec_spell()
            &&& r@[m - 1].spec_view_positions() == vocabulary_infos@[m - 1].spec_view_positions()
            &&& r@[m - 1].spec_chunk_count() == k - total_chunk_count(vocabulary_infos@.take(m - 1))
            &&& total_chunk_count(r@) == k
        }),
{
    let ghost oldi = vocabulary_infos@;
    let len = vocabulary_infos.len();
    let mut before: usize = 0;
    let mut m: usize = 0;
    proof {
        assert(oldi.take(0) =~= Seq::<VocabularyInfo>::empty());
    }
    loop
        invariant_except_break
            oldi == vocabulary_infos@,
            len == oldi.len(),
            forall|i: int| 0 <= i < oldi.len() ==> (#[trigger] oldi[i]).spec_chunk_count() >= 1,
            1 <= k <= total_chunk_count(oldi),
            m <= oldi.len(),
            before == total_chunk_count(oldi.take(m as int)),
            before < k,
        ensures
            oldi == vocabulary_infos@,
            1 <= m <= oldi.len(),
            before == total_chunk_count(oldi.take(m - 1)),
            before < k <= total_chunk_count(oldi.take(m as int)),
        decreases oldi.len() - m,
    {
        proof {
            if m == oldi.len() {
                assert(oldi.take(m as int) =~= oldi);
            }
            assert(oldi.take(m + 1).drop_last() =~= oldi.take(m as int));
        }
        let c = vocabulary_infos[m].chunk_count().get();
        if c >= k - before {
            m = m + 1;
            break;
        }
        before = before + c;
        m = m + 1;
    }
    let mut infos = vocabulary_infos;
    while infos.len() > m
        invariant
            m <= infos@.len(),
            infos@ == oldi.take(infos@.len() as int),
            infos@.len() <= oldi.len(),
            m <= oldi.len(),
        decreases infos@.len(),
    {
        proof {
            assert(oldi.take(infos@.len() as int).drop_last() =~= oldi.take(infos@.len() - 1));
        }
        infos.pop();
    }
    assert(infos@ =~= oldi.take(m as int));
    let mut last_info = infos.pop().unwrap();
    proof {
        assert(oldi.take(m as int).drop_last() =~= oldi.take(m - 1));
        assert(last_info == oldi[m - 1]);
    }
    let new_count = k - before;
    last_info.reset_chunk_count(NonZeroUsize::new(new_count).unwrap());
    infos.push(last_info);
    proof {
        assert(infos@.drop_last() =~= oldi.take(m - 1));
    }
    infos
}

/// Cuts appended chunks and their vocabularies so that the chunks need exactly `threshold`
/// key strokes at least: the chunks are kept up to the first one with which the sum of the
/// fewest key strokes reaches `threshold`, and that one is restricted to the key strokes left.
/// The vocabularies are kept up to the one of that chunk, whose chunk count is cut to the
/// chunks kept. `None` when all the chunks together need fewer key strokes.
pub fn restrict_to_key_stroke_count(
    chunks: Vec<ChunkUnprocessed>,
    vocabulary_infos: Vec<VocabularyInfo>,
    threshold: NonZeroUsize,
) -> (r: Option<Query>)
    requires
        forall|i: int| 0 <= i < chunks@.len() ==> (#[trigger] chunks@[i]).wf(),
        forall|i: int| 0 <= i < vocabulary_infos@.len() ==> (#[trigger] vocabulary_infos@[i]).spec_chunk_count() >= 1,
        total_chunk_count(vocabulary_infos@) == chunks@.len(),
    ensures
        r is Some <==> min_counts_sum(chunks@) >= threshold.spec_get(),
        r matches Some(q) ==> {
            let k = q.spec_chunks().len() as int;
            let m = q.spec_infos().len() as int;
            let t = threshold.spec_get() as int;
            &&& 1 <= k <= chunks@.len()
            &&& min_counts_sum(chunks@.take(k - 1)) < t <= min_counts_sum(chunks@.take(k))
            &&& forall|i: int| 0 <= i < k - 1 ==> #[trigger] q.spec_chunks()[i] == chunks@[i]
            &&& is_restriction(q.spec_chunks()[k - 1], chunks@[k - 1], t - min_counts_sum(chunks@.take(k - 1)))
            &&& min_counts_sum(q.spec_chunks()) == t
            &&& 1 <= m <= vocabulary_infos@.len()
            &&& total_chunk_count(vocabulary_infos@.take(m - 1)) < k <= total_chunk_count(vocabulary_infos@.take(m))
            &&& forall|i: int| 0 <= i < m - 1 ==> #[trigger] q.spec_infos()[i] == vocabulary_infos@[i]
            &&& q.spec_infos()[m - 1].spec_view() == vocabulary_infos@[m - 1].spec_view()
            &&& q.spec_infos()[m - 1].spec_spell() == vocabulary_infos@[m - 1].spec_spell()
            &&& q.spec_infos()[m - 1].spec_view_positions() == vocabulary_infos@[m - 1].spec_view_positions()
            &&& q.spec_infos()[m - 1].spec_chunk_count() == k - total_chunk_count(vocabulary_infos@.take(m - 1))
            &&& total_chunk_count(q.spec_infos()) == k
        },
{
    let r = cut_chunks(chunks, threshold);
    match r {
        None => None,
        Some(cs) => {
            let k = cs.len();
            let infos = cut_infos(vocabulary_infos, k);
            Some(Query::new(infos, cs))
        },
    }
}

/// The entries behind references.
pub open spec fn deref_entries(v: Seq<&VocabularyEntry>) -> Seq<VocabularyEntry> {
    Seq::new(v.len(), |i: int| *v[i])
}

/// The entry behind an optional reference.
pub open spec fn deref_option(o: Option<&VocabularyEntry>) -> Option<VocabularyEntry> {
    match o {
        Some(e) => Some(*e),
        None => None,
    }
}

/// The `k`-th vocabulary picked from the list `entries` follows `order`: in order, the one at
/// `k` wrapping at the end; at random, any of the list.
pub open spec fn entry_pick_ok(e: VocabularyEntry, k: int, entries: Seq<VocabularyEntry>, order: VocabularyOrder) -> bool {
    match order {
        VocabularyOrder::InOrder => e == entries[k % (entries.len() as int)],
        VocabularyOrder::Random => exists|j: int| 0 <= j < entries.len() && e == entries[j],
    }
}

/// The `i`-th vocabulary picked: with a separator, every second one is the separator.
pub open spec fn pick_ok(
    e: VocabularyEntry,
    i: int,
    entries: Seq<VocabularyEntry>,
    sepv: Option<VocabularyEntry>,
    order: VocabularyOrder,
) -> bool {
    match sepv {
        Some(s) => if i % 2 == 1 {
            e == s
        } else {
            entry_pick_ok(e, i / 2, entries, order)
        },
        None => entry_pick_ok(e, i, entries, order),
    }
}

/// Every vocabulary picked follows the order and the separator.
pub open spec fn picks_follow(
    picks: Seq<VocabularyEntry>,
    entries: Seq<VocabularyEntry>,
    sepv: Option<VocabularyEntry>,
    order: VocabularyOrder,
) -> bool {
    forall|i: int| 0 <= i < picks.len() ==> #[trigger] pick_ok(picks[i], i, entries, sepv, order)
}

/// The number of vocabularies of the list among the first `p` picked.
pub open spec fn list_picks(p: int, sepv: Option<VocabularyEntry>) -> int {
    match sepv {
        Some(_) => (p + 1) / 2,
        None => p,
    }
}

/// The state of the picking after `p` vocabularies were picked.
spec fn picker_state(
    is_prev: bool,
    prev: Option<usize>,
    p: int,
    n: int,
    sepv: Option<VocabularyEntry>,
    order: VocabularyOrder,
) -> bool {
    &&& (sepv is Some ==> is_prev == (p % 2 == 1))
    &&& (order is InOrder ==> prev == (if list_picks(p, sepv) == 0 {
        None::<usize>
    } else {
        Some(((list_picks(p, sepv) - 1) % n) as usize)
    }))
}

/// Picks the next vocabulary: the separator after a vocabulary of the list when there is
/// one, otherwise the next vocabulary of the list in the order.
fn pick_next<'b>(
    entries: &Vec<&'b VocabularyEntry>,
    sep: Option<&'b VocabularyEntry>,
    order: VocabularyOrder,
    is_prev: &mut bool,
    prev: &mut Option<usize>,
    Ghost(p): Ghost<int>,
) -> (r: &'b VocabularyEntry)
    requires
        entries@.len() > 0,
        p >= 0,
        picker_state(*old(is_prev), *old(prev), p, entries@.len() as int, deref_option(sep), order),
    ensures
        picker_state(*final(is_prev), *final(prev), p + 1, entries@.len() as int, deref_option(sep), order),
        pick_ok(*r, p, deref_entries(entries@), deref_option(sep), order),
{
    let ghost n = entries@.len() as int;
    let ghost sepv = deref_option(sep);
    if *is_prev && sep.is_some() {
        *is_prev = false;
        proof {
            assert((p + 2) / 2 == (p + 1) / 2);
        }
        sep.unwrap()
    } else {
        let ghost k = list_picks(p, sepv);
        proof {
            if sepv is Some {
                assert(p % 2 == 0);
                assert(k == p / 2);
                assert(list_picks(p + 1, sepv) == k + 1);
            }
        }
        *is_prev = true;
        let idx = order.next_vocabulary_entry_index(*prev, entries.len());
        proof {
            if order is InOrder {
                if k == 0 {
                    vstd::arithmetic::div_mod::lemma_small_mod(0, n as nat);
                } else {
                    vstd::arithmetic::div_mod::lemma_add_mod_noop(k - 1, 1, n);
                    vstd::arithmetic::div_mod::lemma_add_mod_noop_right((k - 1) % n, 1, n);
                    vstd::arithmetic::div_mod::lemma_mod_bound(k - 1, n);
                }
                assert(idx == k % n);
                vstd::arithmetic::div_mod::lemma_mod_bound(k, n);
                assert(((k + 1 - 1) % n) as usize == idx);
            }
        }
        *prev = Some(idx);
        let e = entries[idx];
        proof {
            let es = deref_entries(entries@);
            assert(es[idx as int] == *e);
            if order is Random {
                assert(entry_pick_ok(*e, k, es, order));
            }
        }
        e
    }
}

/// The chunks and vocabularies gathered from the vocabularies picked.
pub open spec fn gathered(
    chunks: Seq<ChunkCandidateUnappended>,
    infos: Seq<VocabularyInfo>,
    picks: Seq<VocabularyEntry>,
) -> bool {
    &&& infos.len() == picks.len()
    &&& chunk_spells_of(chunks) == entries_spell(picks)
    &&& total_chunk_count(infos) == chunks.len()
    &&& forall|i: int| 0 <= i < infos.len() ==> info_of(#[trigger] infos[i], picks[i])
    &&& forall|i: int| 0 <= i < infos.len() ==> (#[trigger] infos[i]).spec_chunk_count() >= 1
    &&& forall|i: int| 0 <= i < chunks.len() ==> (#[trigger] chunks[i]).spec_spell().wf()
}


/// The sum of the estimates of the fewest key strokes of the chunks `cs`.
pub open spec fn estimates_sum(cs: Seq<ChunkCandidateUnappended>) -> int
    decreases cs.len(),
{
    if cs.len() == 0 {
        0
    } else {
        estimates_sum(cs.drop_last()) + cs.last().spec_estimate()
    }
}

/// `x`, or `usize::MAX` when it is larger.
pub open spec fn capped(x: int) -> int {
    if x > usize::MAX {
        usize::MAX as int
    } else {
        x
    }
}

proof fn lemma_estimates_sum_concat(a: Seq<ChunkCandidateUnappended>, b: Seq<ChunkCandidateUnappended>)
    ensures
        estimates_sum(a + b) == estimates_sum(a) + estimates_sum(b),
    decreases b.len(),
{
    if b.len() == 0 {
        assert(a + b =~= a);
    } else {
        assert((a + b).drop_last() =~= a + b.drop_last());
        lemma_estimates_sum_concat(a, b.drop_last());
    }
}

proof fn lemma_estimates_sum_nonnegative(cs: Seq<ChunkCandidateUnappended>)
    ensures
        estimates_sum(cs) >= 0,
    decreases cs.len(),
{
    if cs.len() > 0 {
        lemma_estimates_sum_nonnegative(cs.drop_last());
        cs.last().lemma_estimate_nonnegative();
    }
}

/// Adds the chunks and the information of the vocabulary `e`; `None`, with nothing added,
/// when its spell is empty. Otherwise returns an estimate of the fewest key strokes of its
/// chunks, at least one.
fn add_vocabulary(
    e: &VocabularyEntry,
    chunks: &mut Vec<ChunkCandidateUnappended>,
    infos: &mut Vec<VocabularyInfo>,
    Ghost(picks): Ghost<Seq<VocabularyEntry>>,
) -> (r: Option<usize>)
    requires
        gathered(old(chunks)@, old(infos)@, picks),
    ensures
        r is None <==> spell_of(e.spec_spells()).len() == 0,
        r is None ==> final(chunks)@ == old(chunks)@ && final(infos)@ == old(infos)@,
        r matches Some(x) ==> x >= 1 && gathered(final(chunks)@, final(infos)@, picks.push(*e)),
        r matches Some(x) ==> x == capped(estimates_sum(final(chunks)@) - estimates_sum(old(chunks)@)),
{
    let mut cs = e.construct_chunks();
    if cs.len() == 0 {
        assert(chunk_spells_of(cs@) =~= Seq::<char>::empty());
        return None;
    }
    proof {
        assert(cs@.last().spec_spell().wf());
        assert(chunk_spells_of(cs@).len() > 0);
    }
    let mut estimate: usize = 0;
    let mut j: usize = 0;
    assert(cs@.take(0) =~= Seq::<ChunkCandidateUnappended>::empty());
    while j < cs.len()
        invariant
            j <= cs@.len(),
            j > 0 ==> estimate >= 1,
            forall|i: int| 0 <= i < cs@.len() ==> (#[trigger] cs@[i]).spec_spell().wf(),
            estimate == capped(estimates_sum(cs@.take(j as int))),
        decreases cs@.len() - j,
    {
        proof {
            assert(cs@.take(j + 1).drop_last() =~= cs@.take(j as int));
            lemma_estimates_sum_nonnegative(cs@.take(j as int));
        }
        estimate = estimate.saturating_add(cs[j].estimate_min_key_stroke_count());
        j = j + 1;
    }
    assert(cs@.take(cs@.len() as int) =~= cs@);
    let info = e.construct_vocabulary_info(NonZeroUsize::new(cs.len()).unwrap());
    let ghost before = chunks@;
    let ghost added = cs@;
    chunks.append(&mut cs);
    infos.push(info);
    proof {
        lemma_estimates_sum_concat(before, added);
        crate::vocabulary::lemma_chunk_spells_concat(before, added);
        let np = picks.push(*e);
        assert(np.drop_last() =~= picks);
        assert(infos@.drop_last() =~= old(infos)@);
        assert forall|i: int| 0 <= i < infos@.len() implies info_of(#[trigger] infos@[i], np[i]) by {
            if i < old(infos)@.len() {
                assert(infos@[i] == old(infos)@[i]);
            }
        }
        assert forall|i: int| 0 <= i < chunks@.len() implies (#[trigger] chunks@[i]).spec_spell().wf() by {
            if i < before.len() {
                assert(chunks@[i] == before[i]);
            } else {
                assert(chunks@[i] == added[i - before.len()]);
            }
        }
    }
    Some(estimate)
}

/// The query `q` is built from the vocabularies `picks`: it holds the information of a first
/// part of them, and chunks whose spells begin their spells.
pub open spec fn built_from(q: Query, picks: Seq<VocabularyEntry>) -> bool {
    &&& q.spec_infos().len() <= picks.len()
    &&& forall|i: int| 0 <= i < q.spec_infos().len() ==> info_of(#[trigger] q.spec_infos()[i], picks[i])
    &&& forall|i: int| 0 <= i < q.spec_infos().len() ==> (#[trigger] q.spec_infos()[i]).spec_chunk_count() >= 1
    &&& total_chunk_count(q.spec_infos()) == q.spec_chunks().len()
    &&& unprocessed_spells_of(q.spec_chunks()).is_prefix_of(entries_spell(picks))
    &&& forall|i: int| 0 <= i < q.spec_chunks().len() ==> (#[trigger] q.spec_chunks()[i]).wf()
}

/// What the quantifier asks of the query built from `picks`: exactly `t` key strokes at
/// least, or `n` vocabularies with all their chunks.
pub open spec fn meets_quantifier(q: Query, picks: Seq<VocabularyEntry>, quantifier: VocabularyQuantifier) -> bool {
    match quantifier {
        VocabularyQuantifier::KeyStroke(t) => {
            &&& min_counts_sum(q.spec_chunks()) == t.spec_get()
            &&& cut_from_picks(q, picks, t.spec_get() as int)
        },
        VocabularyQuantifier::Vocabulary(n) => {
            &&& picks.len() == n.spec_get()
            &&& q.spec_infos().len() == n.spec_get()
            &&& unprocessed_spells_of(q.spec_chunks()) == entries_spell(picks)
        },
    }
}

/// The spells of unprocessed chunks are those of the chunks they were made of.
proof fn lemma_spells_match(a: Seq<ChunkCandidateUnappended>, b: Seq<ChunkUnprocessed>)
    requires
        a.len() == b.len(),
        forall|i: int| 0 <= i < a.len() ==> (#[trigger] b[i]).spec_spell().same_as(a[i].spec_spell()),
    ensures
        chunk_spells_of(a) == unprocessed_spells_of(b),
    decreases a.len(),
{
    if a.len() > 0 {
        lemma_spells_match(a.drop_last(), b.drop_last());
        assert(b.last().spec_spell().same_as(a.last().spec_spell()));
    }
}

/// The spells of a first part of chunks begin the spells of them all.
proof fn lemma_unprocessed_spells_take(s: Seq<ChunkUnprocessed>, k: int)
    requires
        0 <= k <= s.len(),
    ensures
        unprocessed_spells_of(s.take(k)).is_prefix_of(unprocessed_spells_of(s)),
    decreases s.len(),
{
    if k == s.len() {
        assert(s.take(k) =~= s);
    } else {
        let p = s.drop_last();
        assert(s.take(k) =~= p.take(k));
        lemma_unprocessed_spells_take(p, k);
        assert(unprocessed_spells_of(s) == unprocessed_spells_of(p) + s.last().spec_spell().spec_chars());
        assert(unprocessed_spells_of(s.take(k)).is_prefix_of(unprocessed_spells_of(s)));
    }
}

/// Chunks of the same spells, one by one, have the same spells.
proof fn lemma_unprocessed_spells_pointwise(a: Seq<ChunkUnprocessed>, b: Seq<ChunkUnprocessed>)
    requires
        a.len() == b.len(),
        forall|i: int| 0 <= i < a.len() ==> (#[trigger] a[i]).spec_spell() == b[i].spec_spell(),
    ensures
        unprocessed_spells_of(a) == unprocessed_spells_of(b),
    decreases a.len(),
{
    if a.len() > 0 {
        lemma_unprocessed_spells_pointwise(a.drop_last(), b.drop_last());
        assert(a.last().spec_spell() == b.last().spec_spell());
    }
}

/// Every vocabulary of the list, and the separator if any, has a spell.
pub open spec fn spells_nonempty(entries: Seq<VocabularyEntry>, sepv: Option<VocabularyEntry>) -> bool {
    &&& forall|i: int| 0 <= i < entries.len() ==> spell_of(#[trigger] entries[i].spec_spells()).len() > 0
    &&& (sepv matches Some(s) ==> spell_of(s.spec_spells()).len() > 0)
}

/// A vocabulary picked has a spell when all of the list and the separator have one.
proof fn lemma_pick_has_spell(
    e: VocabularyEntry,
    i: int,
    entries: Seq<VocabularyEntry>,
    sepv: Option<VocabularyEntry>,
    order: VocabularyOrder,
)
    requires
        pick_ok(e, i, entries, sepv, order),
        spells_nonempty(entries, sepv),
        entries.len() > 0,
        i >= 0,
    ensures
        spell_of(e.spec_spells()).len() > 0,
{
    let k = if sepv is Some { i / 2 } else { i };
    if sepv is Some && i % 2 == 1 {
    } else {
        if order is InOrder {
            vstd::arithmetic::div_mod::lemma_mod_bound(k, entries.len() as int);
            assert(e == entries[k % (entries.len() as int)]);
        } else {
            let j = choose|j: int| 0 <= j < entries.len() && e == entries[j];
            assert(e == entries[j]);
        }
    }
}

/// The picks extended by one more vocabulary picked still follow the order.
proof fn lemma_picks_push(
    picks: Seq<VocabularyEntry>,
    e: VocabularyEntry,
    entries: Seq<VocabularyEntry>,
    sepv: Option<VocabularyEntry>,
    order: VocabularyOrder,
)
    requires
        picks_follow(picks, entries, sepv, order),
        pick_ok(e, picks.len() as int, entries, sepv, order),
    ensures
        picks_follow(picks.push(e), entries, sepv, order),
{
    let np = picks.push(e);
    assert forall|i: int| 0 <= i < np.len() implies #[trigger] pick_ok(np[i], i, entries, sepv, order) by {
        if i < picks.len() {
            assert(np[i] == picks[i]);
        }
    }
}

/// Picks vocabularies until the estimate of the fewest key strokes of their chunks reaches
/// `t`; `None` when a vocabulary picked has no spell.
fn gather_for_key_strokes<'b>(
    entries: &Vec<&'b VocabularyEntry>,
    sep: Option<&'b VocabularyEntry>,
    order: VocabularyOrder,
    t: usize,
) -> (r: Option<(Vec<ChunkCandidateUnappended>, Vec<VocabularyInfo>, Ghost<Seq<VocabularyEntry>>)>)
    requires
        entries@.len() > 0,
    ensures
        spells_nonempty(deref_entries(entries@), deref_option(sep)) ==> r is Some,
        r matches Some((cs, is, picks)) ==> picks_follow(picks@, deref_entries(entries@), deref_option(sep), order)
            && gathered(cs@, is@, picks@),
        r matches Some((cs, is, picks)) ==> estimates_sum(cs@) >= t,
{
    let ghost sepv = deref_option(sep);
    let ghost es = deref_entries(entries@);
    let ghost n = entries@.len() as int;
    let mut is_prev = false;
    let mut prev: Option<usize> = None;
    let mut chunks: Vec<ChunkCandidateUnappended> = Vec::new();
    let mut infos: Vec<VocabularyInfo> = Vec::new();
    let ghost mut picks: Seq<VocabularyEntry> = Seq::empty();
    assert(chunk_spells_of(chunks@) =~= entries_spell(picks));
    let mut estimate: usize = 0;
    while estimate < t
        invariant
            n == entries@.len() > 0,
            sepv == deref_option(sep),
            es == deref_entries(entries@),
            picker_state(is_prev, prev, picks.len() as int, n, sepv, order),
            picks_follow(picks, es, sepv, order),
            gathered(chunks@, infos@, picks),
            estimate == capped(estimates_sum(chunks@)),
        decreases (if estimate <= t {
            t - estimate
        } else {
            0
        }),
    {
        let e = pick_next(entries, sep, order, &mut is_prev, &mut prev, Ghost(picks.len() as int));
        proof {
            if spells_nonempty(es, sepv) {
                lemma_pick_has_spell(*e, picks.len() as int, es, sepv, order);
            }
        }
        let ghost before = chunks@;
        let added = add_vocabulary(e, &mut chunks, &mut infos, Ghost(picks));
        proof {
            lemma_estimates_sum_nonnegative(before);
        }
        match added {
            None => {
                return None;
            },
            Some(x) => {
                if x > usize::MAX - estimate {
                    estimate = usize::MAX;
                } else {
                    estimate = estimate + x;
                }
            },
        }
        proof {
            lemma_picks_push(picks, *e, es, sepv, order);
            picks = picks.push(*e);
        }
    }
    Some((chunks, infos, Ghost(picks)))
}

/// Picks `c` vocabularies; `None` when one of them has no spell, which cannot happen when all
/// of the list and the separator have one.
fn gather_for_count<'b>(
    entries: &Vec<&'b VocabularyEntry>,
    sep: Option<&'b VocabularyEntry>,
    order: VocabularyOrder,
    c: usize,
) -> (r: Option<(Vec<ChunkCandidateUnappended>, Vec<VocabularyInfo>, Ghost<Seq<VocabularyEntry>>)>)
    requires
        entries@.len() > 0,
    ensures
        spells_nonempty(deref_entries(entries@), deref_option(sep)) ==> r is Some,
        r matches Some((cs, is, picks)) ==> picks_follow(picks@, deref_entries(entries@), deref_option(sep), order)
            && gathered(cs@, is@, picks@) && picks@.len() == c,
{
    let ghost sepv = deref_option(sep);
    let ghost es = deref_entries(entries@);
    let ghost n = entries@.len() as int;
    let mut is_prev = false;
    let mut prev: Option<usize> = None;
    let mut chunks: Vec<ChunkCandidateUnappended> = Vec::new();
    let mut infos: Vec<VocabularyInfo> = Vec::new();
    let ghost mut picks: Seq<VocabularyEntry> = Seq::empty();
    assert(chunk_spells_of(chunks@) =~= entries_spell(picks));
    let mut picked: usize = 0;
    while picked < c
        invariant
            n == entries@.len() > 0,
            sepv == deref_option(sep),
            es == deref_entries(entries@),
            picker_state(is_prev, prev, picks.len() as int, n, sepv, order),
            picks_follow(picks, es, sepv, order),
            gathered(chunks@, infos@, picks),
            picks.len() == picked,
            picked <= c,
        decreases c - picked,
    {
        let e = pick_next(entries, sep, order, &mut is_prev, &mut prev, Ghost(picks.len() as int));
        proof {
            if spells_nonempty(es, sepv) {
                lemma_pick_has_spell(*e, picks.len() as int, es, sepv, order);
            }
        }
        let added = add_vocabulary(e, &mut chunks, &mut infos, Ghost(picks));
        if added.is_none() {
            return None;
        }
        proof {
            lemma_picks_push(picks, *e, es, sepv, order);
            picks = picks.push(*e);
        }
        picked = picked + 1;
    }
    Some((chunks, infos, Ghost(picks)))
}

/// A query cut from gathered chunks is built from the vocabularies picked.
proof fn lemma_cut_built_from(
    q: Query,
    app: Seq<ChunkUnprocessed>,
    oldi: Seq<VocabularyInfo>,
    picks: Seq<VocabularyEntry>,
    t: int,
)
    requires
        forall|i: int| 0 <= i < app.len() ==> (#[trigger] app[i]).wf(),
        unprocessed_spells_of(app) == entries_spell(picks),
        oldi.len() == picks.len(),
        forall|i: int| 0 <= i < oldi.len() ==> info_of(#[trigger] oldi[i], picks[i]),
        ({
            let k = q.spec_chunks().len() as int;
            let m = q.spec_infos().len() as int;
            &&& 1 <= k <= app.len()
            &&& forall|i: int| 0 <= i < k - 1 ==> #[trigger] q.spec_chunks()[i] == app[i]
            &&& is_restriction(q.spec_chunks()[k - 1], app[k - 1], t - min_counts_sum(app.take(k - 1)))
            &&& 1 <= m <= oldi.len()
            &&& forall|i: int| 0 <= i < m - 1 ==> #[trigger] q.spec_infos()[i] == oldi[i]
            &&& q.spec_infos()[m - 1].spec_view() == oldi[m - 1].spec_view()
            &&& q.spec_infos()[m - 1].spec_spell() == oldi[m - 1].spec_spell()
            &&& q.spec_infos()[m - 1].spec_view_positions() == oldi[m - 1].spec_view_positions()
            &&& q.spec_infos()[m - 1].spec_chunk_count() >= 1
            &&& forall|i: int| 0 <= i < oldi.len() ==> (#[trigger] oldi[i]).spec_chunk_count() >= 1
            &&& total_chunk_count(q.spec_infos()) == k
        }),
    ensures
        built_from(q, picks),
{
    let k = q.spec_chunks().len() as int;
    let m = q.spec_infos().len() as int;
    lemma_unprocessed_spells_pointwise(q.spec_chunks(), app.take(k));
    lemma_unprocessed_spells_take(app, k);
    assert forall|i: int| 0 <= i < m implies info_of(#[trigger] q.spec_infos()[i], picks[i]) by {
        if i < m - 1 {
            assert(q.spec_infos()[i] == oldi[i]);
        }
    }
    assert forall|i: int| 0 <= i < k implies (#[trigger] q.spec_chunks()[i]).wf() by {
        if i < k - 1 {
            assert(q.spec_chunks()[i] == app[i]);
        }
    }
    assert forall|i: int| 0 <= i < m implies (#[trigger] q.spec_infos()[i]).spec_chunk_count() >= 1 by {
        if i < m - 1 {
            assert(q.spec_infos()[i] == oldi[i]);
        }
    }
}

/// Assigns key stroke candidates to the gathered chunks and cuts them to need exactly
/// `threshold` key strokes at least.
#[verifier::spinoff_prover]
#[verifier::rlimit(40)]
fn finish_by_key_strokes(
    chunks: Vec<ChunkCandidateUnappended>,
    infos: Vec<VocabularyInfo>,
    Ghost(picks): Ghost<Seq<VocabularyEntry>>,
    threshold: NonZeroUsize,
) -> (r: Option<Query>)
    requires
        gathered(chunks@, infos@, picks),
    ensures
        chunks@.len() >= threshold.spec_get() ==> r is Some,
        estimates_sum(chunks@) >= threshold.spec_get() ==> r is Some,
        r matches Some(q) ==> built_from(q, picks) && min_counts_sum(q.spec_chunks()) == threshold.spec_get(),
        r matches Some(q) ==> forall|i: int|
            0 <= i && i + 2 < q.spec_chunks().len() ==> #[trigger] candidates_follow_dictionary(q.spec_chunks(), i),
        r matches Some(q) ==> forall|i: int|
            0 <= i && i + 2 < q.spec_chunks().len() ==> #[trigger] candidates_generated(q.spec_chunks(), i),
        r matches Some(q) ==> cut_from_picks(q, picks, threshold.spec_get() as int),
{
    let cslice = chunks.as_slice();
    let appended = append_key_stroke_to_chunks(cslice);
    proof {
        lemma_spells_match(chunks@, appended@);
        lemma_min_counts_sum_at_least_len(appended@);
        lemma_min_counts_at_least_estimates(appended@, chunks@);
    }
    let ghost app = appended@;
    let ghost oldi = infos@;
    let r = restrict_to_key_stroke_count(appended, infos, threshold);
    proof {
        if r is Some {
            lemma_cut_built_from(r->0, app, oldi, picks, threshold.spec_get() as int);
            let q = r->0;
            assert(cut_from(q, app, threshold.spec_get() as int)) by {
                reveal(cut_from);
            }
            assert forall|i: int| 0 <= i && i + 2 < q.spec_chunks().len() implies #[trigger] candidates_generated(q.spec_chunks(), i) by {
                reveal(candidates_generated);
                assert(candidates_generated(app, i));
                assert(q.spec_chunks()[i] == app[i]);
                assert(q.spec_chunks()[i + 1] == app[i + 1]);
            }
            assert(unprocessed_spells_of(app) == entries_spell(picks));
            lemma_cut_from_picks(q, picks, threshold.spec_get() as int, app);
            assert forall|i: int| 0 <= i && i + 2 < q.spec_chunks().len() implies #[trigger] candidates_follow_dictionary(q.spec_chunks(), i) by {
                assert(candidates_follow_dictionary(app, i));
                assert(q.spec_chunks()[i] == app[i]);
                assert(q.spec_chunks()[i + 1] == app[i + 1]);
            }
        }
    }
    r
}

/// Assigns key stroke candidates to all the gathered chunks.
fn finish_all(
    chunks: Vec<ChunkCandidateUnappended>,
    infos: Vec<VocabularyInfo>,
    Ghost(picks): Ghost<Seq<VocabularyEntry>>,
) -> (q: Query)
    requires
        gathered(chunks@, infos@, picks),
    ensures
        built_from(q, picks),
        q.spec_infos().len() == picks.len(),
        unprocessed_spells_of(q.spec_chunks()) == entries_spell(picks),
        forall|i: int| 0 <= i < q.spec_chunks().len() ==> #[trigger] candidates_follow_dictionary(q.spec_chunks(), i),
        forall|i: int| 0 <= i < q.spec_chunks().len() ==> #[trigger] candidates_generated(q.spec_chunks(), i),
{
    let cslice = chunks.as_slice();
    let appended = append_key_stroke_to_chunks(cslice);
    proof {
        lemma_spells_match(chunks@, appended@);
        assert(unprocessed_spells_of(appended@) =~= entries_spell(picks).subrange(0, entries_spell(picks).len() as int));
    }
    Query::new(infos, appended)
}

/// `q` answers the request `req`: it is built from vocabularies picked from the list in the
/// order asked, with the separator between them, as much of them as the quantifier asks, and
/// its chunks, of which there is one at least, but the last two have the key stroke
/// candidates which type them.
#[verifier::opaque]
pub open spec fn answers(q: Query, req: QueryRequest) -> bool {
    &&& q.spec_chunks().len() > 0
    &&& exists|picks: Seq<VocabularyEntry>, sepv: Option<VocabularyEntry>|
        #![trigger picks_follow(picks, req.spec_entries(), sepv, req.spec_order())]
        {
            &&& separator_of(sepv, req.spec_separator())
            &&& picks_follow(picks, req.spec_entries(), sepv, req.spec_order())
            &&& built_from(q, picks)
            &&& meets_quantifier(q, picks, req.spec_quantifier())
            &&& forall|i: int| 0 <= i && i + 2 < q.spec_chunks().len() ==> #[trigger] candidates_follow_dictionary(q.spec_chunks(), i)
            &&& forall|i: int| 0 <= i && i + 2 < q.spec_chunks().len() ==> #[trigger] candidates_generated(q.spec_chunks(), i)
        }
}

/// A query cut from the chunks `app` of the vocabularies `picks` is cut from their chunks.
proof fn lemma_cut_from_picks(q: Query, picks: Seq<VocabularyEntry>, t: int, app: Seq<ChunkUnprocessed>)
    requires
        cut_from(q, app, t),
        unprocessed_spells_of(app) == entries_spell(picks),
        forall|i: int| 0 <= i < app.len() ==> #[trigger] candidates_generated(app, i),
    ensures
        cut_from_picks(q, picks, t),
{
}

/// A query cut from chunks gathered for the vocabularies `picks` meets a key stroke quantifier.
proof fn lemma_meets_key_stroke(q: Query, picks: Seq<VocabularyEntry>, t: NonZeroUsize, app: Seq<ChunkUnprocessed>)
    requires
        min_counts_sum(q.spec_chunks()) == t.spec_get(),
        cut_from(q, app, t.spec_get() as int),
        unprocessed_spells_of(app) == entries_spell(picks),
        forall|i: int| 0 <= i < app.len() ==> #[trigger] candidates_generated(app, i),
    ensures
        meets_quantifier(q, picks, VocabularyQuantifier::KeyStroke(t)),
{
    assert(cut_from_picks(q, picks, t.spec_get() as int));
}

/// A query of all the chunks of `n` vocabularies picked meets a vocabulary quantifier.
proof fn lemma_meets_vocabulary(q: Query, picks: Seq<VocabularyEntry>, n: NonZeroUsize)
    requires
        picks.len() == n.spec_get(),
        q.spec_infos().len() == n.spec_get(),
        unprocessed_spells_of(q.spec_chunks()) == entries_spell(picks),
    ensures
        meets_quantifier(q, picks, VocabularyQuantifier::Vocabulary(n)),
{
}

/// A query built as the request asks answers it.
proof fn lemma_answers_intro(q: Query, req: QueryRequest, picks: Seq<VocabularyEntry>, sepv: Option<VocabularyEntry>)
    requires
        q.spec_chunks().len() > 0,
        separator_of(sepv, req.spec_separator()),
        picks_follow(picks, req.spec_entries(), sepv, req.spec_order()),
        built_from(q, picks),
        meets_quantifier(q, picks, req.spec_quantifier()),
        forall|i: int| 0 <= i && i + 2 < q.spec_chunks().len() ==> #[trigger] candidates_follow_dictionary(q.spec_chunks(), i),
        forall|i: int| 0 <= i && i + 2 < q.spec_chunks().len() ==> #[trigger] candidates_generated(q.spec_chunks(), i),
    ensures
        answers(q, req),
{
    reveal(answers);
}

/// A query answering a request has chunks, each well formed.
pub proof fn lemma_answers_elim(q: Query, req: QueryRequest)
    requires
        answers(q, req),
    ensures
        q.spec_chunks().len() > 0,
        forall|i: int| 0 <= i < q.spec_chunks().len() ==> (#[trigger] q.spec_chunks()[i]).wf(),
{
    reveal(answers);
}

/// Vocabularies of one chunk or more have at least as many chunks as there are of them.
proof fn lemma_total_chunk_count_at_least_len(infos: Seq<VocabularyInfo>)
    requires
        forall|i: int| 0 <= i < infos.len() ==> (#[trigger] infos[i]).spec_chunk_count() >= 1,
    ensures
        total_chunk_count(infos) >= infos.len(),
    decreases infos.len(),
{
    if infos.len() > 0 {
        let p = infos.drop_last();
        assert forall|i: int| 0 <= i < p.len() implies (#[trigger] p[i]).spec_chunk_count() >= 1 by {
            assert(p[i] == infos[i]);
        }
        lemma_total_chunk_count_at_least_len(p);
        assert(infos[infos.len() - 1] == infos.last());
    }
}

/// A request for a query: the list of vocabularies to pick from, how many to pick, what to
/// put between them and in which order to pick them.
pub struct QueryRequest<'vocabulary> {
    vocabulary_entries: Vec<&'vocabulary VocabularyEntry>,
    vocabulary_quantifier: VocabularyQuantifier,
    vocabulary_separator: VocabularySeparator,
    vocabulary_order: VocabularyOrder,
}

impl<'vocabulary> QueryRequest<'vocabulary> {
    pub closed spec fn spec_entries(self) -> Seq<VocabularyEntry> {
        deref_entries(self.vocabulary_entries@)
    }

    pub closed spec fn spec_quantifier(self) -> VocabularyQuantifier {
        self.vocabulary_quantifier
    }

    pub closed spec fn spec_separator(self) -> VocabularySeparator {
        self.vocabulary_separator
    }

    pub closed spec fn spec_order(self) -> VocabularyOrder {
        self.vocabulary_order
    }

    /// Every vocabulary of the list, and the separator, has a spell.
    pub open spec fn all_have_spell(self) -> bool {
        &&& forall|i: int| 0 <= i < self.spec_entries().len() ==> spell_of(#[trigger] self.spec_entries()[i].spec_spells()).len() > 0
        &&& (self.spec_separator() matches VocabularySeparator::Vocabulary(v) ==> spell_of(v.spec_spells()).len() > 0)
    }

    /// A request for a query from the list `vocabulary_entries`.
    pub fn new(
        vocabulary_entries: &[&'vocabulary VocabularyEntry],
        vocabulary_quantifier: VocabularyQuantifier,
        vocabulary_separator: VocabularySeparator,
        vocabulary_order: VocabularyOrder,
    ) -> (r: Self)
        ensures
            r.spec_entries() == deref_entries(vocabulary_entries@),
            r.spec_quantifier() == vocabulary_quantifier,
            r.spec_separator() == vocabulary_separator,
            r.spec_order() == vocabulary_order,
    {
        let mut v: Vec<&'vocabulary VocabularyEntry> = Vec::new();
        let mut i: usize = 0;
        while i < vocabulary_entries.len()
            invariant
                i <= vocabulary_entries@.len(),
                v@ == vocabulary_entries@.take(i as int),
            decreases vocabulary_entries@.len() - i,
        {
            v.push(vocabulary_entries[i]);
            i = i + 1;
            assert(v@ =~= vocabulary_entries@.take(i as int));
        }
        assert(v@ =~= vocabulary_entries@);
        QueryRequest {
            vocabulary_entries: v,
            vocabulary_quantifier,
            vocabulary_separator,
            vocabulary_order,
        }
    }

    /// Builds the query: picks vocabularies from the list in the order requested, with the
    /// separator between them, until their chunks are estimated to need the key strokes
    /// requested, or until the number of vocabularies requested was picked; then assigns key
    /// stroke candidates to all their chunks at once, and, for key strokes, cuts the chunks to
    /// need exactly the key strokes requested.
    ///
    /// `None` when the list is empty or when a vocabulary picked has an empty spell: the
    /// vocabularies are picked until the estimate of the fewest key strokes of their chunks
    /// reaches the request, and no chunk needs fewer key strokes than estimated.
    #[verifier::spinoff_prover]
    #[verifier::rlimit(60)]
    pub fn construct_query(&self) -> (r: Option<Query>)
        ensures
            self.spec_entries().len() == 0 ==> r is None,
            r matches Some(q) ==> answers(q, *self),
            self.spec_entries().len() > 0 && self.all_have_spell() ==> r is Some,
            self.spec_quantifier() is Vocabulary ==> (r matches Some(q) ==> forall|i: int|
                0 <= i < q.spec_chunks().len() ==> #[trigger] candidates_follow_dictionary(q.spec_chunks(), i)),
            self.spec_quantifier() is Vocabulary ==> (r matches Some(q) ==> forall|i: int|
                0 <= i < q.spec_chunks().len() ==> #[trigger] candidates_generated(q.spec_chunks(), i)),
            r matches Some(q) ==> forall|i: int|
                0 <= i && i + 2 < q.spec_chunks().len() ==> #[trigger] candidates_follow_dictionary(q.spec_chunks(), i),
    {
        if self.vocabulary_entries.len() == 0 {
            return None;
        }
        let white = white_space_entry();
        let sep: Option<&VocabularyEntry> = match &self.vocabulary_separator {
            VocabularySeparator::Nothing => None,
            VocabularySeparator::WhiteSpace => Some(&white),
            VocabularySeparator::Vocabulary(v) => Some(v),
        };
        let ghost sepv = deref_option(sep);
        assert(separator_of(sepv, self.spec_separator()));
        assert(self.spec_entries() == deref_entries(self.vocabulary_entries@));
        match self.vocabulary_quantifier {
            VocabularyQuantifier::KeyStroke(threshold) => {
                proof {
                    if self.all_have_spell() {
                        assert forall|i: int| 0 <= i < self.spec_entries().len() implies spell_of(
                            #[trigger] self.spec_entries()[i].spec_spells(),
                        ).len() > 0 by {}
                    }
                }
                match gather_for_key_strokes(&self.vocabulary_entries, sep, self.vocabulary_order, threshold.get()) {
                    None => None,
                    Some((chunks, infos, gp)) => {
                        let ghost picks = gp@;
                        let tv = threshold.get();
                        let r = finish_by_key_strokes(chunks, infos, Ghost(picks), threshold);
                        proof {
                            if r is Some {
                                let q = r->0;
                                let app = choose|app: Seq<ChunkUnprocessed>| {
                                    &&& #[trigger] cut_from(q, app, threshold.spec_get() as int)
                                    &&& unprocessed_spells_of(app) == entries_spell(picks)
                                    &&& forall|i: int| 0 <= i < app.len() ==> #[trigger] candidates_generated(app, i)
                                };
                                assert(cut_from(q, app, threshold.spec_get() as int));
                                lemma_meets_key_stroke(q, picks, threshold, app);
                                if q.spec_chunks().len() == 0 {
                                    assert(min_counts_sum(q.spec_chunks()) == 0);
                                }
                                lemma_answers_intro(q, *self, picks, sepv);
                            }
                        }
                        r
                    },
                }
            },
            VocabularyQuantifier::Vocabulary(count) => {
                proof {
                    if self.all_have_spell() {
                        assert forall|i: int| 0 <= i < self.spec_entries().len() implies spell_of(
                            #[trigger] self.spec_entries()[i].spec_spells(),
                        ).len() > 0 by {}
                    }
                }
                match gather_for_count(&self.vocabulary_entries, sep, self.vocabulary_order, count.get()) {
                    None => None,
                    Some((chunks, infos, gp)) => {
                        let ghost picks = gp@;
                        let cv = count.get();
                        let q = finish_all(chunks, infos, Ghost(picks));
                        proof {
                            lemma_meets_vocabulary(q, picks, count);
                            lemma_total_chunk_count_at_least_len(q.spec_infos());
                            lemma_answers_intro(q, *self, picks, sepv);
                        }
                        Some(q)
                    },
                }
            },
        }
    }
}

} // verus!
