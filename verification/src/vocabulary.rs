//! Vocabularies: words with the spells of their parts, and the positions in the shown word of
//! each spell character.
use vstd::prelude::*;

use crate::chunk::candidate_unappended::ChunkCandidateUnappended;
use crate::chunk::spec_valid_chunk_spell;
use crate::dictionary::spec_is_double_chunk;
use crate::primitives::NonZeroUsize;
use crate::spell::SpellString;
use crate::text::{chars_to_string, str_to_chars};
use crate::utility::spec_is_displayable_ascii;

verus! {

/// The spell of a part of a word.
#[derive(Debug, PartialEq, Eq, Hash)]
pub enum VocabularySpellElement {
    /// The spell of a single character of the word.
    Normal(SpellString),
    /// The spell of several characters of the word read together (熟字訓), with their number.
    Compound((SpellString, NonZeroUsize)),
}

impl VocabularySpellElement {
    /// The number of word characters this spell is for.
    pub open spec fn spec_view_count(self) -> int {
        match self {
            VocabularySpellElement::Normal(_) => 1,
            VocabularySpellElement::Compound((_, n)) => n.spec_get() as int,
        }
    }

    /// The spell characters.
    pub open spec fn spec_spell(self) -> Seq<char> {
        match self {
            VocabularySpellElement::Normal(s) => s@,
            VocabularySpellElement::Compound((s, _)) => s@,
        }
    }

    /// Returns the spell.
    pub fn construct_spell_string(&self) -> (r: SpellString)
        ensures
            r@ == self.spec_spell(),
    {
        match self {
            VocabularySpellElement::Normal(s) => s.duplicate(),
            VocabularySpellElement::Compound((s, _)) => s.duplicate(),
        }
    }

    /// Returns the number of word characters this spell is for.
    pub fn view_count(&self) -> (r: usize)
        ensures
            r == self.spec_view_count(),
            r >= 1,
    {
        match self {
            VocabularySpellElement::Normal(_) => 1,
            VocabularySpellElement::Compound((_, n)) => n.get(),
        }
    }

    /// A copy of this element.
    pub fn duplicate(&self) -> (r: Self)
        ensures
            r.spec_spell() == self.spec_spell(),
            r.spec_view_count() == self.spec_view_count(),
            r is Normal == self is Normal,
    {
        match self {
            VocabularySpellElement::Normal(s) => VocabularySpellElement::Normal(s.duplicate()),
            VocabularySpellElement::Compound((s, n)) => VocabularySpellElement::Compound((s.duplicate(), *n)),
        }
    }
}

/// The number of word characters the spells are for.
pub open spec fn view_count_of(spells: Seq<VocabularySpellElement>) -> int
    decreases spells.len(),
{
    if spells.len() == 0 {
        0
    } else {
        view_count_of(spells.drop_last()) + spells.last().spec_view_count()
    }
}

/// The spell characters of the spells, concatenated.
pub open spec fn spell_of(spells: Seq<VocabularySpellElement>) -> Seq<char>
    decreases spells.len(),
{
    if spells.len() == 0 {
        Seq::empty()
    } else {
        spell_of(spells.drop_last()) + spells.last().spec_spell()
    }
}

/// A word with the spells of its parts.
#[derive(Debug, PartialEq, Eq, Hash)]
pub struct VocabularyEntry {
    view: Vec<char>,
    spells: Vec<VocabularySpellElement>,
}

impl VocabularyEntry {
    #[verifier::type_invariant]
    spec fn inv(self) -> bool {
        self.view@.len() == view_count_of(self.spells@)
    }

    pub closed spec fn spec_view(self) -> Seq<char> {
        self.view@
    }

    pub closed spec fn spec_spells(self) -> Seq<VocabularySpellElement> {
        self.spells@
    }

    /// The word `view` with the spells of its parts, when the spells are for exactly the
    /// characters of the word.
    ///
    /// For example, "巨大" has the spells `[Normal("きょ"), Normal("だい")]`, "Big" has
    /// `[Normal("B"), Normal("i"), Normal("g")]`, and "七夕送り" has
    /// `[Compound("たなばた", 2), Normal("おく"), Normal("り")]`.
    pub fn new(view: String, spells: Vec<VocabularySpellElement>) -> (r: Option<Self>)
        ensures
            r is Some <==> view@.len() == view_count_of(spells@),
            r matches Some(e) ==> e.spec_view() == view@ && e.spec_spells() == spells@,
    {
        let chars = str_to_chars(view.as_str());
        let len = chars.len();
        let mut total: usize = 0;
        let mut overflow = false;
        let mut i: usize = 0;
        while i < spells.len()
            invariant
                i <= spells@.len(),
                !overflow ==> total == view_count_of(spells@.take(i as int)),
                overflow ==> view_count_of(spells@.take(i as int)) > usize::MAX,
            decreases spells@.len() - i,
        {
            proof {
                assert(spells@.take(i + 1).drop_last() == spells@.take(i as int));
                lemma_view_count_nonneg(spells@.take(i as int));
            }
            let n = spells[i].view_count();
            if !overflow {
                match total.checked_add(n) {
                    Some(t) => total = t,
                    None => overflow = true,
                }
            }
            i = i + 1;
        }
        assert(spells@.take(i as int) == spells@);
        if overflow || len != total {
            None
        } else {
            Some(VocabularyEntry { view: chars, spells })
        }
    }

    /// Returns the word.
    pub fn view(&self) -> (r: String)
        ensures
            r@ == self.spec_view(),
    {
        chars_to_string(&self.view)
    }

    /// Returns the spells of the parts of the word.
    pub fn spells(&self) -> (r: &Vec<VocabularySpellElement>)
        ensures
            r@ == self.spec_spells(),
    {
        &self.spells
    }

    /// Returns the spell of the whole word: the spells of its parts, concatenated.
    pub fn construct_spell_string(&self) -> (r: SpellString)
        ensures
            r@ == spell_of(self.spec_spells()),
    {
        let mut s = SpellString::empty();
        let mut i: usize = 0;
        while i < self.spells.len()
            invariant
                i <= self.spec_spells().len(),
                s@ == spell_of(self.spec_spells().take(i as int)),
            decreases self.spec_spells().len() - i,
        {
            proof {
                assert(self.spec_spells().take(i + 1).drop_last() == self.spec_spells().take(i as int));
            }
            let part = self.spells[i].construct_spell_string();
            s = s.concat(&part);
            i = i + 1;
        }
        assert(self.spec_spells().take(i as int) == self.spec_spells());
        s
    }

    /// Returns the chunks of the spell of the word, without key strokes: from the start of
    /// the spell, an ASCII character is a chunk, two characters typed at once are a chunk,
    /// and any other character is a chunk.
    pub fn construct_chunks(&self) -> (r: Vec<ChunkCandidateUnappended>)
        ensures
            chunk_spells_of(r@) == spell_of(self.spec_spells()),
            forall|i: int| 0 <= i < r@.len() ==> (#[trigger] r@[i]).spec_spell().wf(),
            forall|k: int| 0 <= k && k + 1 < r@.len() ==> #[trigger] longest_at(r@, k),
    {
        let spell = self.construct_spell_string();
        construct_chunks_of(&spell)
    }
}

/// The spells of chunks, concatenated.
pub open spec fn chunk_spells_of(chunks: Seq<ChunkCandidateUnappended>) -> Seq<char>
    decreases chunks.len(),
{
    if chunks.len() == 0 {
        Seq::empty()
    } else {
        chunk_spells_of(chunks.drop_last()) + chunks.last().spec_spell().spec_chars()
    }
}

/// The number of word characters is never negative.
proof fn lemma_view_count_nonneg(spells: Seq<VocabularySpellElement>)
    ensures
        view_count_of(spells) >= 0,
    decreases spells.len(),
{
    if spells.len() > 0 {
        lemma_view_count_nonneg(spells.drop_last());
        assert(spells.last().spec_view_count() >= 0);
    }
}

/// The spells of two sequences of chunks, one after the other, are those of both.
pub proof fn lemma_chunk_spells_concat(a: Seq<ChunkCandidateUnappended>, b: Seq<ChunkCandidateUnappended>)
    ensures
        chunk_spells_of(a + b) == chunk_spells_of(a) + chunk_spells_of(b),
    decreases b.len(),
{
    if b.len() == 0 {
        assert(a + b =~= a);
        assert(chunk_spells_of(a) + chunk_spells_of(b) =~= chunk_spells_of(a));
    } else {
        lemma_chunk_spells_concat(a, b.drop_last());
        assert((a + b).drop_last() =~= a + b.drop_last());
        assert((a + b).last() == b.last());
        assert(chunk_spells_of(a + b) =~= chunk_spells_of(a) + chunk_spells_of(b));
    }
}

/// Wherever a single non-ASCII character stands in the spell as a chunk of its own, it does
/// not form a two-character chunk of the dictionary with the character after it: chunks are
/// the longest the dictionary knows at their place.
pub proof fn law_chunks_are_longest(spell: Seq<char>, r: Seq<ChunkCandidateUnappended>, k: int)
    requires
        chunk_spells_of(r) == spell,
        forall|i: int| 0 <= i < r.len() ==> (#[trigger] r[i]).spec_spell().wf(),
        forall|j: int| 0 <= j && j + 1 < r.len() ==> #[trigger] longest_at(r, j),
        0 <= k < r.len(),
        r[k].spec_spell().spec_chars().len() == 1,
        !spec_is_displayable_ascii(r[k].spec_spell().spec_chars()[0]),
        chunk_spells_of(r.take(k)).len() + 1 < spell.len(),
    ensures
        ({
            let p = chunk_spells_of(r.take(k)).len() as int;
            !spec_is_double_chunk(spell[p], spell[p + 1])
        }),
{
    let p = chunk_spells_of(r.take(k)).len() as int;
    lemma_chunk_spells_concat(r.take(k), r.skip(k));
    assert(r.take(k) + r.skip(k) =~= r);
    let rest = r.skip(k);
    lemma_chunk_spells_concat(seq![r[k]], rest.skip(1));
    assert(seq![r[k]] + rest.skip(1) =~= rest);
    assert(seq![r[k]].drop_last() =~= Seq::<ChunkCandidateUnappended>::empty());
    assert(seq![r[k]].last() == r[k]);
    assert(chunk_spells_of(Seq::<ChunkCandidateUnappended>::empty()) == Seq::<char>::empty());
    assert(chunk_spells_of(seq![r[k]]) =~= r[k].spec_spell().spec_chars());
    assert(spell[p] == r[k].spec_spell().spec_chars()[0]);
    if k + 1 >= r.len() {
        assert(rest.skip(1) =~= Seq::<ChunkCandidateUnappended>::empty());
        assert(spell.len() == p + 1);
    } else {
        let tail = rest.skip(1);
        lemma_chunk_spells_concat(seq![tail[0]], tail.skip(1));
        assert(seq![tail[0]] + tail.skip(1) =~= tail);
        assert(seq![tail[0]].drop_last() =~= Seq::<ChunkCandidateUnappended>::empty());
        assert(seq![tail[0]].last() == tail[0]);
        assert(chunk_spells_of(seq![tail[0]]) =~= tail[0].spec_spell().spec_chars());
        assert(tail[0] == r[k + 1]);
        assert(r[k + 1].spec_spell().wf());
        assert(r[k + 1].spec_spell().spec_chars().len() > 0);
        assert(spell[p + 1] == r[k + 1].spec_spell().spec_chars()[0]);
        assert(longest_at(r, k));
    }
}

/// A chunk of the characters `a` could not have taken the next character `c` with it: it is
/// not a single non-ASCII character which forms a two-character chunk of the dictionary with
/// `c`.
pub open spec fn joinable(a: Seq<char>, c: char) -> bool {
    a.len() == 1 && !spec_is_displayable_ascii(a[0]) && spec_is_double_chunk(a[0], c)
}

/// The chunk at `k` of `r` is the longest the dictionary knows at its place: it does not leave
/// out the first character of the chunk after it where the two form a two-character chunk.
pub open spec fn longest_at(r: Seq<ChunkCandidateUnappended>, k: int) -> bool {
    !joinable(r[k].spec_spell().spec_chars(), r[k + 1].spec_spell().spec_chars()[0])
}

/// Splits a spell into chunks from its start: an ASCII character is a chunk, two characters
/// typed at once are a chunk, and any other character is a chunk.
pub fn construct_chunks_of(spell: &SpellString) -> (r: Vec<ChunkCandidateUnappended>)
    ensures
        chunk_spells_of(r@) == spell@,
        forall|i: int| 0 <= i < r@.len() ==> (#[trigger] r@[i]).spec_spell().wf(),
        forall|k: int| 0 <= k && k + 1 < r@.len() ==> #[trigger] longest_at(r@, k),
{
    let chars = spell.as_chars();
    let n = chars.len();
    let mut r: Vec<ChunkCandidateUnappended> = Vec::new();
    let mut i: usize = 0;
    while i < n
        invariant
            n == chars@.len(),
            chars@ == spell@,
            crate::spell::all_usable_in_spell(chars@),
            i <= n,
            chunk_spells_of(r@) == chars@.take(i as int),
            forall|k: int| 0 <= k < r@.len() ==> (#[trigger] r@[k]).spec_spell().wf(),
            forall|k: int| 0 <= k && k + 1 < r@.len() ==> #[trigger] longest_at(r@, k),
            r@.len() > 0 && i < n ==> !joinable(r@.last().spec_spell().spec_chars(), chars@[i as int]),
        decreases n - i,
    {
        let c = chars[i];
        let double = i + 1 < n && !crate::utility::is_displayable_ascii(c) && crate::dictionary::double_char_key_strokes(
            c,
            chars[i + 1],
        ).is_some();
        let ghost rb = r@;
        if double {
            let mut v: Vec<char> = Vec::new();
            v.push(c);
            v.push(chars[i + 1]);
            let s = SpellString::from_chars(v);
            match s {
                Ok(s) => {
                    let chunk = ChunkCandidateUnappended::new(s);
                    r.push(chunk);
                    proof {
                        assert(r@.drop_last() == rb);
                        assert(chars@.take(i + 2) == chars@.take(i as int) + seq![chars@[i as int], chars@[i + 1]]);
                        assert(chunk.spec_spell().spec_chars()[0] == chars@[i as int]);
                        assert forall|k: int| 0 <= k && k + 1 < r@.len() implies #[trigger] longest_at(r@, k) by {
                            assert(r@[k] == rb[k] || k == rb.len());
                            if k + 1 < rb.len() {
                                assert(longest_at(rb, k));
                                assert(r@[k + 1] == rb[k + 1]);
                            } else {
                                assert(r@[k] == rb.last());
                                assert(r@[k + 1] == chunk);
                            }
                        }
                    }
                    i = i + 2;
                },
                Err(_) => {
                    proof {
                        assert(crate::spell::spec_usable_in_spell(chars@[i as int]));
                        assert(crate::spell::spec_usable_in_spell(chars@[i + 1]));
                    }
                    i = i + 1;
                },
            }
        } else {
            let mut v: Vec<char> = Vec::new();
            v.push(c);
            let s = SpellString::from_chars(v);
            match s {
                Ok(s) => {
                    let chunk = ChunkCandidateUnappended::new(s);
                    r.push(chunk);
                    proof {
                        assert(r@.drop_last() == rb);
                        assert(chars@.take(i + 1) == chars@.take(i as int) + seq![chars@[i as int]]);
                        assert(chunk.spec_spell().spec_chars()[0] == chars@[i as int]);
                        assert forall|k: int| 0 <= k && k + 1 < r@.len() implies #[trigger] longest_at(r@, k) by {
                            if k + 1 < rb.len() {
                                assert(longest_at(rb, k));
                                assert(r@[k] == rb[k]);
                                assert(r@[k + 1] == rb[k + 1]);
                            } else {
                                assert(r@[k] == rb.last());
                                assert(r@[k + 1] == chunk);
                            }
                        }
                    }
                },
                Err(_) => {
                    proof {
                        assert(crate::spell::spec_usable_in_spell(chars@[i as int]));
                    }
                },
            }
            i = i + 1;
        }
    }
    assert(chars@.take(n as int) == chars@);
    r
}

/// The positions in the word shown of a spell character: one position, or the positions of
/// a compound read together.
#[derive(Debug, Clone, PartialEq, Eq, Hash)]
pub enum ViewPosition {
    Normal(usize),
    Compound(Vec<usize>),
}

impl ViewPosition {
    /// The positions held.
    pub open spec fn spec_positions(self) -> Seq<usize> {
        match self {
            ViewPosition::Normal(p) => seq![p],
            ViewPosition::Compound(v) => v@,
        }
    }

    /// These positions moved by `offset`, saturating at `usize::MAX`.
    pub fn offset(&self, offset: usize) -> (r: Self)
        ensures
            r is Normal == self is Normal,
            r.spec_positions().len() == self.spec_positions().len(),
            forall|i: int| 0 <= i < r.spec_positions().len() ==> r.spec_positions()[i] == crate::statistics::statistics_counter::sat_add(
                self.spec_positions()[i] as int,
                offset as int,
            ),
    {
        match self {
            ViewPosition::Normal(p) => ViewPosition::Normal(p.saturating_add(offset)),
            ViewPosition::Compound(v) => {
                let mut r: Vec<usize> = Vec::new();
                let mut i: usize = 0;
                while i < v.len()
                    invariant
                        i <= v@.len(),
                        r@.len() == i,
                        forall|k: int| 0 <= k < i ==> r@[k] == crate::statistics::statistics_counter::sat_add(v@[k] as int, offset as int),
                    decreases v@.len() - i,
                {
                    r.push(v[i].saturating_add(offset));
                    i = i + 1;
                }
                ViewPosition::Compound(r)
            },
        }
    }

    /// Returns the last position held, 0 when there is none.
    pub fn last_position(&self) -> (r: usize)
        ensures
            self.spec_positions().len() > 0 ==> r == self.spec_positions().last(),
    {
        match self {
            ViewPosition::Normal(p) => *p,
            ViewPosition::Compound(v) => if v.len() > 0 {
                v[v.len() - 1]
            } else {
                0
            },
        }
    }
}

/// The view positions of the spell characters of the spells, for a word whose parts begin at
/// `base`: each character of a normal spell is at its word character, each character of a
/// compound spell at all the word characters of the compound.
pub open spec fn view_positions_of(spells: Seq<VocabularySpellElement>) -> Seq<(bool, int, int)>
    decreases spells.len(),
{
    if spells.len() == 0 {
        Seq::empty()
    } else {
        let start = view_count_of(spells.drop_last());
        let last = spells.last();
        view_positions_of(spells.drop_last()) + Seq::new(
            last.spec_spell().len(),
            |k: int| (last is Normal, start, last.spec_view_count()),
        )
    }
}

/// `v` holds the positions described by `(normal, start, count)`.
pub open spec fn describes(v: ViewPosition, d: (bool, int, int)) -> bool {
    &&& (v is Normal) == d.0
    &&& v.spec_positions().len() == (if d.0 { 1 } else { d.2 })
    &&& forall|k: int| 0 <= k < v.spec_positions().len() ==> v.spec_positions()[k] == d.1 + k
}

/// A vocabulary in a query: the word, its spell, the view positions of the spell characters
/// and the number of its chunks in the query.
#[derive(Debug, Clone, PartialEq, Eq, Hash)]
pub struct VocabularyInfo {
    view: Vec<char>,
    spell: Vec<char>,
    view_position_of_spell: Vec<ViewPosition>,
    chunk_count: NonZeroUsize,
}

impl VocabularyInfo {
    pub closed spec fn spec_view(self) -> Seq<char> {
        self.view@
    }

    pub closed spec fn spec_spell(self) -> Seq<char> {
        self.spell@
    }

    pub closed spec fn spec_view_positions(self) -> Seq<ViewPosition> {
        self.view_position_of_spell@
    }

    pub closed spec fn spec_chunk_count(self) -> usize {
        self.chunk_count.spec_get()
    }

    pub fn new(view: String, spell: SpellString, view_position_of_spell: Vec<ViewPosition>, chunk_count: NonZeroUsize) -> (r: Self)
        ensures
            r.spec_view() == view@,
            r.spec_spell() == spell@,
            r.spec_view_positions() == view_position_of_spell@,
            r.spec_chunk_count() == chunk_count.spec_get(),
    {
        VocabularyInfo {
            view: str_to_chars(view.as_str()),
            spell: spell.as_chars().clone(),
            view_position_of_spell,
            chunk_count,
        }
    }

    /// Returns the number of chunks of this vocabulary in the query.
    pub fn chunk_count(&self) -> (r: NonZeroUsize)
        ensures
            r.spec_get() == self.spec_chunk_count(),
    {
        self.chunk_count
    }

    /// Returns the word.
    pub fn view(&self) -> (r: String)
        ensures
            r@ == self.spec_view(),
    {
        chars_to_string(&self.view)
    }

    /// Returns the number of characters of the word.
    pub fn view_len(&self) -> (r: usize)
        ensures
            r == self.spec_view().len(),
    {
        self.view.len()
    }

    /// Returns the view positions of the spell characters.
    pub fn view_position_of_spell(&self) -> (r: &Vec<ViewPosition>)
        ensures
            r@ == self.spec_view_positions(),
    {
        &self.view_position_of_spell
    }

    /// Sets the number of chunks of this vocabulary in the query.
    pub fn reset_chunk_count(&mut self, chunk_count: NonZeroUsize)
        ensures
            final(self).spec_chunk_count() == chunk_count.spec_get(),
            final(self).spec_view() == old(self).spec_view(),
            final(self).spec_spell() == old(self).spec_spell(),
            final(self).spec_view_positions() == old(self).spec_view_positions(),
    {
        self.chunk_count = chunk_count;
    }
}

impl VocabularyEntry {
    /// Returns the information of this vocabulary in a query where it has `chunk_count`
    /// chunks.
    pub fn construct_vocabulary_info(&self, chunk_count: NonZeroUsize) -> (r: VocabularyInfo)
        ensures
            r.spec_view() == self.spec_view(),
            r.spec_spell() == spell_of(self.spec_spells()),
            r.spec_chunk_count() == chunk_count.spec_get(),
            r.spec_view_positions().len() == view_positions_of(self.spec_spells()).len(),
            forall|i: int| 0 <= i < r.spec_view_positions().len() ==> describes(
                #[trigger] r.spec_view_positions()[i],
                view_positions_of(self.spec_spells())[i],
            ),
    {
        proof {
            use_type_invariant(self);
        }
        let mut positions: Vec<ViewPosition> = Vec::new();
        let mut base: usize = 0;
        let vlen = self.view.len();
        let mut i: usize = 0;
        while i < self.spells.len()
            invariant
                vlen == self.spec_view().len(),
                i <= self.spec_spells().len(),
                self.spec_view().len() == view_count_of(self.spec_spells()),
                base as int == view_count_of(self.spec_spells().take(i as int)),
                positions@.len() == view_positions_of(self.spec_spells().take(i as int)).len(),
                forall|k: int| 0 <= k < positions@.len() ==> describes(
                    #[trigger] positions@[k],
                    view_positions_of(self.spec_spells().take(i as int))[k],
                ),
            decreases self.spec_spells().len() - i,
        {
            let ghost before = self.spec_spells().take(i as int);
            proof {
                assert(self.spec_spells().take(i + 1).drop_last() == before);
                lemma_view_count_prefix(self.spec_spells(), i + 1);
            }
            let element = &self.spells[i];
            let count = element.view_count();
            assert(self.spec_spells().take(i + 1).last() == *element);

            let normal = match element {
                VocabularySpellElement::Normal(_) => true,
                _ => false,
            };
            let spell = element.construct_spell_string();
            let n = spell.len();
            let ghost pb = positions@;
            let mut j: usize = 0;
            while j < n
                invariant
                    j <= n,
                    n == element.spec_spell().len(),
                    positions@.len() == pb.len() + j,
                    forall|k: int| 0 <= k < pb.len() ==> positions@[k] == pb[k],
                    forall|k: int| pb.len() <= k < positions@.len() ==> describes(
                        #[trigger] positions@[k],
                        (normal, base as int, count as int),
                    ),
                    base + count <= usize::MAX,
                    count >= 1,
                decreases n - j,
            {
                if normal {
                    positions.push(ViewPosition::Normal(base));
                } else {
                    let mut v: Vec<usize> = Vec::new();
                    let mut x: usize = 0;
                    while x < count
                        invariant
                            x <= count,
                            base + count <= usize::MAX,
                            v@.len() == x,
                            forall|y: int| 0 <= y < x ==> v@[y] == base + y,
                        decreases count - x,
                    {
                        v.push(base + x);
                        x = x + 1;
                    }
                    positions.push(ViewPosition::Compound(v));
                }
                j = j + 1;
            }
            proof {
                let full = self.spec_spells().take(i + 1);
                assert(view_positions_of(full) == view_positions_of(before) + Seq::new(
                    element.spec_spell().len(),
                    |k: int| (element is Normal, view_count_of(before), element.spec_view_count()),
                ));
                assert forall|k: int| 0 <= k < positions@.len() implies describes(
                    #[trigger] positions@[k],
                    view_positions_of(full)[k],
                ) by {
                    if k < pb.len() {
                        assert(positions@[k] == pb[k]);
                    }
                }
            }
            base = base + count;
            i = i + 1;
        }
        assert(self.spec_spells().take(i as int) == self.spec_spells());
        VocabularyInfo {
            view: self.view.clone(),
            spell: self.construct_spell_string().as_chars().clone(),
            view_position_of_spell: positions,
            chunk_count,
        }
    }
}

/// The word counts of a prefix grow up to the whole word count.
proof fn lemma_view_count_prefix(spells: Seq<VocabularySpellElement>, i: int)
    requires
        0 <= i <= spells.len(),
    ensures
        view_count_of(spells.take(i)) <= view_count_of(spells),
    decreases spells.len() - i,
{
    if i < spells.len() {
        lemma_view_count_prefix(spells, i + 1);
        assert(spells.take(i + 1).drop_last() == spells.take(i));
        assert(spells.take(i + 1).last().spec_view_count() >= 0);
    } else {
        assert(spells.take(i) == spells);
    }
}

/// The spell position `p` clamped to the last spell position of `len`.
pub open spec fn clamp_position(p: int, len: int) -> int {
    if p >= len {
        len - 1
    } else {
        p
    }
}

/// The view positions of the spell positions: for each, all the positions of its view
/// position (the last spell position's for one past the spell), in order.
pub open spec fn view_positions_for(spell_positions: Seq<usize>, vps: Seq<ViewPosition>) -> Seq<usize>
    decreases spell_positions.len(),
{
    if spell_positions.len() == 0 {
        Seq::empty()
    } else {
        view_positions_for(spell_positions.drop_last(), vps) + vps[clamp_position(
            spell_positions.last() as int,
            vps.len() as int,
        )].spec_positions()
    }
}

/// Converts spell positions to the view positions they stand for. A spell position past the
/// last one (a cursor after the spell) stands for the last.
///
/// For example, with the view positions `[Compound([0, 1, 2, 3]), Compound([0, 1, 2, 3]),
/// Normal(4)]`, the spell positions `[0, 1, 2]` give `[0, 1, 2, 3, 0, 1, 2, 3, 4]`.
pub fn convert_spell_positions_to_view_positions(
    spell_positions: &[usize],
    view_position_of_spell_position: &[ViewPosition],
) -> (r: Vec<usize>)
    requires
        spell_positions@.len() > 0 ==> view_position_of_spell_position@.len() > 0,
    ensures
        r@ == view_positions_for(spell_positions@, view_position_of_spell_position@),
{
    let mut r: Vec<usize> = Vec::new();
    let len = view_position_of_spell_position.len();
    let mut i: usize = 0;
    while i < spell_positions.len()
        invariant
            i <= spell_positions@.len(),
            len == view_position_of_spell_position@.len(),
            spell_positions@.len() > 0 ==> len > 0,
            r@ == view_positions_for(spell_positions@.take(i as int), view_position_of_spell_position@),
        decreases spell_positions@.len() - i,
    {
        let p = spell_positions[i];
        let index = if p >= len {
            len - 1
        } else {
            p
        };
        let positions = match &view_position_of_spell_position[index] {
            ViewPosition::Normal(q) => vec![*q],
            ViewPosition::Compound(v) => v.clone(),
        };
        let ghost before = r@;
        let mut positions = positions;
        r.append(&mut positions);
        proof {
            assert(spell_positions@.take(i + 1).drop_last() =~= spell_positions@.take(i as int));
            assert(spell_positions@.take(i + 1).last() == p);
        }
        i = i + 1;
    }
    assert(spell_positions@.take(i as int) =~= spell_positions@);
    r
}

/// The sum of the lengths of the words of the vocabularies.
pub open spec fn view_len_sum(infos: Seq<VocabularyInfo>) -> int
    decreases infos.len(),
{
    if infos.len() == 0 {
        0
    } else {
        view_len_sum(infos.drop_last()) + infos.last().spec_view().len()
    }
}

/// `x`, or `usize::MAX` when it is larger.
pub open spec fn clamp_usize(x: int) -> int {
    if x > usize::MAX {
        usize::MAX as int
    } else {
        x
    }
}

/// The view positions of the spell positions of the vocabularies, each with the position in
/// the whole view of the word it belongs to.
pub open spec fn flat_view_positions(infos: Seq<VocabularyInfo>) -> Seq<(ViewPosition, int)>
    decreases infos.len(),
{
    if infos.len() == 0 {
        Seq::empty()
    } else {
        let last = infos.last();
        let base = clamp_usize(view_len_sum(infos.drop_last()));
        flat_view_positions(infos.drop_last()) + Seq::new(
            last.spec_view_positions().len(),
            |k: int| (last.spec_view_positions()[k], base),
        )
    }
}

/// `new` holds the positions of `old` moved by `base`, saturating at `usize::MAX`.
pub open spec fn is_offset(new: ViewPosition, old: ViewPosition, base: int) -> bool {
    &&& (new is Normal) == (old is Normal)
    &&& new.spec_positions().len() == old.spec_positions().len()
    &&& forall|i: int|
        0 <= i < new.spec_positions().len() ==> new.spec_positions()[i] == crate::statistics::statistics_counter::sat_add(
            old.spec_positions()[i] as int,
            base,
        )
}

/// The view positions of the spell positions of a whole query: those of each vocabulary,
/// moved by the length of the words before it.
pub fn construct_view_position_of_spell_positions(vocabulary_infos: &[VocabularyInfo]) -> (r: Vec<ViewPosition>)
    ensures
        r@.len() == flat_view_positions(vocabulary_infos@).len(),
        forall|i: int|
            0 <= i < r@.len() ==> is_offset(
                #[trigger] r@[i],
                flat_view_positions(vocabulary_infos@)[i].0,
                flat_view_positions(vocabulary_infos@)[i].1,
            ),
{
    let mut r: Vec<ViewPosition> = Vec::new();
    let mut index: usize = 0;
    let mut i: usize = 0;
    while i < vocabulary_infos.len()
        invariant
            i <= vocabulary_infos@.len(),
            index == clamp_usize(view_len_sum(vocabulary_infos@.take(i as int))),
            r@.len() == flat_view_positions(vocabulary_infos@.take(i as int)).len(),
            forall|k: int|
                0 <= k < r@.len() ==> is_offset(
                    #[trigger] r@[k],
                    flat_view_positions(vocabulary_infos@.take(i as int))[k].0,
                    flat_view_positions(vocabulary_infos@.take(i as int))[k].1,
                ),
        decreases vocabulary_infos@.len() - i,
    {
        let info = &vocabulary_infos[i];
        let vps = info.view_position_of_spell();
        let ghost rb = r@;
        let ghost pre = vocabulary_infos@.take(i as int);
        let ghost next = vocabulary_infos@.take(i + 1);
        proof {
            assert(next.drop_last() =~= pre);
            assert(next.last() == *info);
        }
        let mut j: usize = 0;
        while j < vps.len()
            invariant
                j <= vps@.len(),
                vps@ == info.spec_view_positions(),
                r@.len() == rb.len() + j,
                forall|k: int| 0 <= k < rb.len() ==> r@[k] == rb[k],
                forall|k: int| 0 <= k < j ==> is_offset(#[trigger] r@[rb.len() + k], vps@[k], index as int),
            decreases vps@.len() - j,
        {
            r.push(vps[j].offset(index));
            j = j + 1;
        }
        proof {
            let f = flat_view_positions(next);
            assert forall|k: int| 0 <= k < r@.len() implies is_offset(#[trigger] r@[k], f[k].0, f[k].1) by {
                if k < rb.len() {
                    assert(r@[k] == rb[k]);
                } else {
                    let kk = k - rb.len();
                    assert(r@[rb.len() + kk] == r@[k]);
                }
            }
        }
        index = index.saturating_add(info.view_len());
        i = i + 1;
    }
    assert(vocabulary_infos@.take(i as int) =~= vocabulary_infos@);
    r
}

} // verus!
