//! Chunks before key stroke candidates are assigned, and the assignment of candidates to a
//! whole sequence of chunks.
use vstd::prelude::*;

use super::key_stroke_candidate::{
    all_wf, is_min_candidate_index, meets_head, min_candidate_index, sorted_by_count,
    starts_with, CandidateKeyStroke, ChunkKeyStrokeCandidate, DelayedConfirmedCandidateInfo,
};
use super::unprocessed::{spec_min_count, ChunkUnprocessed};
use vstd::multiset::Multiset;
use super::{spec_valid_chunk_spell, ChunkSpell};
use crate::dictionary::{
    double_char_key_strokes, key_stroke_views, single_char_key_strokes, spec_double_char_key_strokes,
    spec_is_double_chunk, spec_single_char_key_strokes, wf_key_stroke_list,
};
use crate::key_stroke::{KeyStrokeChar, KeyStrokeString};
use crate::spell::SpellString;

verus! {

/// A chunk whose key stroke candidates are not assigned yet.
#[derive(Debug, PartialEq, Eq, Hash)]
pub struct ChunkCandidateUnappended {
    spell: ChunkSpell,
}

impl ChunkCandidateUnappended {
    pub closed spec fn spec_spell(self) -> ChunkSpell {
        self.spell
    }

    pub fn new(spell: SpellString) -> (r: Self)
        requires
            spec_valid_chunk_spell(spell@),
        ensures
            r.spec_spell().wf(),
            r.spec_spell().spec_chars() == spell@,
    {
        ChunkCandidateUnappended { spell: ChunkSpell::new(spell) }
    }

    /// Returns the spell of this chunk.
    pub fn spell(&self) -> (r: &ChunkSpell)
        ensures
            *r == self.spec_spell(),
    {
        &self.spell
    }

    /// The estimate of the fewest key strokes which type this chunk: one for an ASCII
    /// character and for "っ", otherwise the fewest of its dictionary key strokes.
    pub open spec fn spec_estimate(self) -> int {
        spec_estimate_of(self.spec_spell())
    }

    /// No chunk is estimated to need fewer than no key strokes.
    pub proof fn lemma_estimate_nonnegative(self)
        ensures
            self.spec_estimate() >= 0,
    {
        lemma_min_len_nonnegative(spec_dictionary_key_strokes(self.spec_spell()));
    }
}

/// The estimate of the fewest key strokes which type a chunk of the spell `spell`: one for an
/// ASCII character and for "っ", otherwise the fewest of its dictionary key strokes.
pub closed spec fn spec_estimate_of(spell: ChunkSpell) -> int {
    if spell is DisplayableAscii || spell.spec_chars() == seq!['\u{3063}'] {
        1
    } else {
        min_len(spec_dictionary_key_strokes(spell))
    }
}

impl ChunkCandidateUnappended {

    /// Returns an estimate of the minimum number of key strokes which type this chunk: one
    /// for an ASCII character and for "っ" (which may be typed by repeating the next
    /// consonant), otherwise the shortest key strokes in the dictionary.
    pub fn estimate_min_key_stroke_count(&self) -> (r: usize)
        requires
            self.spec_spell().wf(),
        ensures
            1 <= r <= 4,
            self.spec_spell() is DisplayableAscii ==> r == 1,
            self.spec_spell().spec_chars() == seq!['\u{3063}'] ==> r == 1,
            !(self.spec_spell() is DisplayableAscii) && self.spec_spell().spec_chars() != seq!['\u{3063}'] ==> r
                == min_len(spec_dictionary_key_strokes(self.spec_spell())),
            r == self.spec_estimate(),
    {
        match &self.spell {
            ChunkSpell::DisplayableAscii(_) => 1,
            _ => {
                let chars = self.spell.spell_string().as_chars();
                if chars.len() == 1 && chars[0] == '\u{3063}' {
                    proof {
                        assert(chars@ =~= seq!['\u{3063}']);
                    }
                    1
                } else {
                    proof {
                        assert(chars@ != seq!['\u{3063}']) by {
                            if chars@ =~= seq!['\u{3063}'] {
                            }
                        }
                    }
                    let l = dictionary_key_strokes(&self.spell);
                    let ghost v = key_stroke_views(l@);
                    let mut min = l[0].len();
                    let mut i: usize = 1;
                    proof {
                        assert(v.take(1) =~= seq![v[0]]);
                    }
                    while i < l.len()
                        invariant
                            wf_key_stroke_list(l@),
                            v == key_stroke_views(l@),
                            1 <= i <= l@.len(),
                            1 <= min <= 4,
                            min == min_len(v.take(i as int)),
                        decreases l@.len() - i,
                    {
                        proof {
                            assert(v.take(i + 1).drop_last() =~= v.take(i as int));
                        }
                        if l[i].len() < min {
                            min = l[i].len();
                        }
                        i = i + 1;
                    }
                    proof {
                        assert(v.take(l@.len() as int) =~= v);
                    }
                    min
                }
            },
        }
    }
}

/// The key stroke alternatives of a chunk spell in the dictionary: those of its character,
/// or of its two characters typed at once.
pub open spec fn spec_dictionary_key_strokes(spell: ChunkSpell) -> Seq<Seq<char>> {
    let chars = spell.spec_chars();
    if chars.len() == 1 {
        spec_single_char_key_strokes(chars[0])
    } else {
        spec_double_char_key_strokes(chars[0], chars[1])
    }
}

/// The fewest characters of the key stroke alternatives of `l`; 0 when there are none.
pub open spec fn min_len(l: Seq<Seq<char>>) -> int
    decreases l.len(),
{
    if l.len() == 0 {
        0
    } else if l.len() == 1 {
        l[0].len() as int
    } else {
        let m = min_len(l.drop_last());
        if (l.last().len() as int) < m {
            l.last().len() as int
        } else {
            m
        }
    }
}

/// No alternative has fewer characters than the fewest.
proof fn lemma_min_len_le(l: Seq<Seq<char>>, i: int)
    requires
        0 <= i < l.len(),
    ensures
        min_len(l) <= l[i].len(),
    decreases l.len(),
{
    if l.len() > 1 && i < l.len() - 1 {
        lemma_min_len_le(l.drop_last(), i);
    }
}

/// No alternative has fewer than no characters.
pub proof fn lemma_min_len_nonnegative(l: Seq<Seq<char>>)
    ensures
        min_len(l) >= 0,
    decreases l.len(),
{
    if l.len() > 1 {
        lemma_min_len_nonnegative(l.drop_last());
    }
}

/// A two character chunk has a dictionary alternative of at most three key strokes.
proof fn lemma_double_min_at_most_three(c1: char, c2: char)
    requires
        spec_is_double_chunk(c1, c2),
    ensures
        min_len(spec_double_char_key_strokes(c1, c2)) <= 3,
{
}

/// Every dictionary alternative of the second character of a two character chunk has at
/// least two key strokes.
proof fn lemma_double_second_at_least_two(c1: char, c2: char)
    requires
        spec_is_double_chunk(c1, c2),
    ensures
        forall|i: int| 0 <= i < spec_single_char_key_strokes(c2).len() ==> (#[trigger] spec_single_char_key_strokes(c2)[i]).len() >= 2,
{
}

/// The dictionary key strokes of a non ASCII chunk spell.
fn dictionary_key_strokes(spell: &ChunkSpell) -> (r: Vec<KeyStrokeString>)
    requires
        spell.wf(),
        !(spell is DisplayableAscii),
    ensures
        wf_key_stroke_list(r@),
        key_stroke_views(r@) == spec_dictionary_key_strokes(*spell),
{
    let chars = spell.spell_string().as_chars();
    if chars.len() == 1 {
        match single_char_key_strokes(chars[0]) {
            Some(l) => l,
            None => {
                proof {
                    assert(crate::spell::spec_usable_in_spell(chars@[0]));
                }
                Vec::new()
            },
        }
    } else {
        match double_char_key_strokes(chars[0], chars[1]) {
            Some(l) => l,
            None => Vec::new(),
        }
    }
}

/// The dictionary key strokes of a single character spell.
fn single_spell_key_strokes(spell: &SpellString) -> (r: Vec<KeyStrokeString>)
    requires
        spell@.len() == 1,
        !crate::utility::spec_is_displayable_ascii(spell@[0]),
    ensures
        wf_key_stroke_list(r@),
        key_stroke_views(r@) == spec_single_char_key_strokes(spell@[0]),
{
    let chars = spell.as_chars();
    match single_char_key_strokes(chars[0]) {
        Some(l) => l,
        None => {
            proof {
                assert(crate::spell::spec_usable_in_spell(chars@[0]));
            }
            Vec::new()
        },
    }
}

/// Every candidate constraining the next chunk names a key stroke of `heads`.
pub open spec fn constraints_within(s: Seq<ChunkKeyStrokeCandidate>, heads: Option<Seq<KeyStrokeChar>>) -> bool {
    forall|i: int|
        0 <= i < s.len() && (#[trigger] s[i]).spec_next_chunk_head_constraint() is Some ==> (heads matches Some(h)
            && h.contains(s[i].spec_next_chunk_head_constraint()->0))
}

/// The view of optional head key strokes.
pub open spec fn heads_view(h: Option<Vec<KeyStrokeChar>>) -> Option<Seq<KeyStrokeChar>> {
    match h {
        Some(v) => Some(v@),
        None => None,
    }
}

/// Every candidate has at most eight key strokes.
pub open spec fn all_short(s: Seq<ChunkKeyStrokeCandidate>) -> bool {
    forall|i: int| 0 <= i < s.len() ==> (#[trigger] s[i]).spec_whole().len() <= 8
}

/// Whether `k` is a vowel, "y" or "n", after which "ん" cannot be typed by "n".
pub open spec fn spec_is_vowel_y_or_n(k: KeyStrokeChar) -> bool {
    k.spec_char() == 'a' || k.spec_char() == 'i' || k.spec_char() == 'u' || k.spec_char() == 'e'
        || k.spec_char() == 'o' || k.spec_char() == 'y' || k.spec_char() == 'n'
}

/// The head key strokes of `h`, in order, after which "ん" can be typed by "n".
pub open spec fn n_heads(h: Seq<KeyStrokeChar>) -> Seq<KeyStrokeChar>
    decreases h.len(),
{
    if h.len() == 0 {
        Seq::empty()
    } else if spec_is_vowel_y_or_n(h.last()) {
        n_heads(h.drop_last())
    } else {
        n_heads(h.drop_last()).push(h.last())
    }
}

/// Whether the key stroke `k` is a vowel or "n", after which "ん" cannot be typed by "n".
fn is_vowel_y_or_n(k: &KeyStrokeChar) -> (r: bool)
    ensures
        r == spec_is_vowel_y_or_n(*k),
{
    k.is_char('a') || k.is_char('i') || k.is_char('u') || k.is_char('e') || k.is_char('o')
        || k.is_char('y') || k.is_char('n')
}

/// Availability of the key stroke "n" for the chunk "ん", which depends on the next chunk.
pub enum SingleNAvailability {
    /// "n" can be used whatever the next chunk begins with; these are the next chunk's head
    /// key strokes.
    All(Vec<KeyStrokeChar>),
    /// "n" can be used only when the next chunk begins with one of these key strokes.
    Partial(Vec<KeyStrokeChar>),
    /// "n" cannot be used.
    Cannot,
}

/// Decides whether "n" can type "ん": not for the last chunk, not before an ASCII chunk, and
/// only before head key strokes other than "a", "i", "u", "e", "o", "y" and "n".
pub fn check_single_n_availability(
    next_chunk_spell: &Option<ChunkSpell>,
    next_chunk_head: &Option<Vec<KeyStrokeChar>>,
) -> (r: SingleNAvailability)
    ensures
        (next_chunk_spell is None || next_chunk_head is None || next_chunk_spell matches Some(
            ChunkSpell::DisplayableAscii(_),
        )) ==> r is Cannot,
        r matches SingleNAvailability::All(v) ==> next_chunk_head matches Some(h) && v@.len() > 0
            && v@ == h@,
        r matches SingleNAvailability::Partial(v) ==> next_chunk_head matches Some(h) && v@.len() > 0
            && v@.len() < h@.len() && forall|i: int| 0 <= i < v@.len() ==> h@.contains(#[trigger] v@[i]),
        r matches SingleNAvailability::All(v) ==> forall|i: int| 0 <= i < v@.len() ==> !(#[trigger] v@[i].spec_char() == 'n'),
        r matches SingleNAvailability::Partial(v) ==> forall|i: int| 0 <= i < v@.len() ==> !(#[trigger] v@[i].spec_char() == 'n'),
        next_chunk_spell is Some && !(next_chunk_spell->0 is DisplayableAscii) && next_chunk_head is Some ==> {
            let h = next_chunk_head->0@;
            let a = n_heads(h);
            &&& a.len() == 0 ==> r is Cannot
            &&& 0 < a.len() == h.len() ==> (r matches SingleNAvailability::All(v) && v@ == a)
            &&& 0 < a.len() < h.len() ==> (r matches SingleNAvailability::Partial(v) && v@ == a)
        },
{
    match (next_chunk_spell, next_chunk_head) {
        (Some(spell), Some(heads)) => {
            if spell.is_displayable_ascii() {
                return SingleNAvailability::Cannot;
            }
            let mut available: Vec<KeyStrokeChar> = Vec::new();
            let mut i: usize = 0;
            while i < heads.len()
                invariant
                    i <= heads@.len(),
                    available@.len() <= i,
                    forall|j: int| 0 <= j < available@.len() ==> heads@.contains(#[trigger] available@[j]),
                    forall|j: int| 0 <= j < available@.len() ==> !(#[trigger] available@[j].spec_char() == 'n'),
                    available@.len() == i ==> available@ == heads@.subrange(0, i as int),
                    available@ == n_heads(heads@.subrange(0, i as int)),
                decreases heads@.len() - i,
            {
                proof {
                    assert(heads@.subrange(0, i + 1).drop_last() == heads@.subrange(0, i as int));
                    assert(heads@.subrange(0, i + 1).last() == heads@[i as int]);
                }
                if !is_vowel_y_or_n(&heads[i]) {
                    let ghost before = available@;
                    available.push(heads[i]);
                    proof {
                        assert(heads@.contains(heads@[i as int]));
                        if before.len() == i {
                            assert(available@ =~= heads@.subrange(0, i + 1));
                        }
                    }
                }
                i = i + 1;
            }
            assert(heads@.subrange(0, heads@.len() as int) =~= heads@);
            if available.len() == 0 {
                SingleNAvailability::Cannot
            } else if available.len() == heads.len() {
                SingleNAvailability::All(available)
            } else {
                SingleNAvailability::Partial(available)
            }
        },
        _ => SingleNAvailability::Cannot,
    }
}

/// The key stroke candidates of a chunk, in the order of the dictionary, given what follows
/// it: the next chunk's spell, its head key strokes, and the key strokes by whose repetition
/// "っ" can be typed before it.
fn generate_candidates(
    spell: &ChunkSpell,
    next_chunk_spell: &Option<ChunkSpell>,
    next_chunk_head: &Option<Vec<KeyStrokeChar>>,
    ltu_repeat: &Option<Vec<KeyStrokeChar>>,
) -> (r: Vec<ChunkKeyStrokeCandidate>)
    requires
        spell.wf(),
        ltu_repeat matches Some(l) ==> next_chunk_head matches Some(h) && forall|i: int|
            0 <= i < l@.len() ==> h@.contains(#[trigger] l@[i]),
        ltu_repeat matches Some(l) ==> next_chunk_spell matches Some(ns) && next_chunk_head matches Some(h) && l@ == (if ns is DisplayableAscii {
            Seq::<KeyStrokeChar>::empty()
        } else {
            consonant_heads(h@)
        }),
        ltu_repeat is None ==> next_chunk_head is None,
    ensures
        r@.len() > 0,
        all_wf(r@),
        all_short(r@),
        constraints_within(r@, heads_view(*next_chunk_head)),
        spell is DisplayableAscii ==> r@.len() == 1 && r@[0].spec_whole() == spell.spec_chars()
            && r@[0].spec_next_chunk_head_constraint() is None && r@[0].spec_delayed() is None,
        forall|i: int| 0 <= i < r@.len() ==> (#[trigger] r@[i]).spec_whole().len() >= spec_estimate_of(*spell),
        wholes_of(r@) == candidate_wholes(*spell, next_info(*next_chunk_spell, *next_chunk_head)),
        cand_views(r@) == generated_views(*spell, next_view(*next_chunk_spell, *next_chunk_head)),
{
    let mut candidates: Vec<ChunkKeyStrokeCandidate> = Vec::new();
    let ghost nv = next_view(*next_chunk_spell, *next_chunk_head);
    let ghost heads_opt = heads_view(*next_chunk_head);
    let ghost est = spec_estimate_of(*spell);
    match spell {
        ChunkSpell::DisplayableAscii(s) => {
            let c = s.as_chars()[0];
            let ks = KeyStrokeString::single(c);
            let k = ChunkKeyStrokeCandidate::new(CandidateKeyStroke::Normal(ks), None, None);
            proof {
                lemma_wholes_push(candidates@, k);
                assert(s@ =~= seq![c]);
                assert(wholes_of(candidates@) =~= Set::<Seq<char>>::empty());
                assert(set![s@] =~= Set::<Seq<char>>::empty().insert(s@));
            }
            candidates.push(k);
            proof {
                assert(cand_views(candidates@) =~= generated_views(*spell, nv));
            }
            return candidates;
        },
        ChunkSpell::SingleChar(s) => {
            let l = single_spell_key_strokes(s);
            let c = s.as_chars()[0];
            let is_n = c == '\u{3093}';
            let is_ltu = c == '\u{3063}';
            let availability = if is_n {
                check_single_n_availability(next_chunk_spell, next_chunk_head)
            } else {
                SingleNAvailability::Cannot
            };
            proof {
                if is_ltu {
                    assert(spell.spec_chars() =~= seq!['\u{3063}']);
                } else {
                    assert(spell.spec_chars() != seq!['\u{3063}']);
                }
            }
            let ghost sv = key_stroke_views(l@);
            let ghost av = n_availability(nv);
            proof {
                if is_n {
                    match (next_chunk_spell, next_chunk_head) {
                        (Some(ns), Some(h)) => {
                            lemma_n_heads_chars(h@);
                            lemma_n_heads_len(h@);
                        },
                        _ => {},
                    }
                    assert(availability_view(availability) == av);
                }
                assert(cand_views(candidates@) =~= single_views(sv.take(0), is_n, av));
            }
            let ghost n_ok = !(availability is Cannot);
            let ghost keep = |w: Seq<char>| !(is_n && !n_ok && w == seq!['n']);
            let mut i: usize = 0;
            proof {
                assert(wholes_of(candidates@) =~= sv.take(0).to_set().filter(keep));
            }
            while i < l.len()
                invariant
                    wf_key_stroke_list(l@),
                    i <= l@.len(),
                    sv == key_stroke_views(l@),
                    n_ok == !(availability is Cannot),
                    keep == (|w: Seq<char>| !(is_n && !n_ok && w == seq!['n'])),
                    wholes_of(candidates@) == sv.take(i as int).to_set().filter(keep),
                    av == n_availability(nv),
                    is_n ==> availability_view(availability) == av,
                    cand_views(candidates@) == single_views(sv.take(i as int), is_n, av),
                    candidates@.len() == 0 ==> forall|j: int| 0 <= j < i ==> !keep(#[trigger] sv[j]),
                    est == spec_estimate_of(*spell),
                    is_ltu ==> est == 1,
                    !is_ltu ==> est == min_len(key_stroke_views(l@)),
                    forall|x: int| 0 <= x < candidates@.len() ==> (#[trigger] candidates@[x]).spec_whole().len() >= est,
                    heads_opt == heads_view(*next_chunk_head),
                    availability matches SingleNAvailability::Partial(v) ==> next_chunk_head matches Some(h)
                        && v@.len() > 0 && forall|j: int| 0 <= j < v@.len() ==> h@.contains(#[trigger] v@[j]),
                    all_wf(candidates@),
                    all_short(candidates@),
                    constraints_within(candidates@, heads_opt),
                decreases l@.len() - i,
            {
                let ks = l[i].duplicate();
                proof {
                    if !is_ltu {
                        lemma_min_len_le(key_stroke_views(l@), i as int);
                    }
                    assert(key_stroke_views(l@)[i as int] == l@[i as int]@);
                }
                let is_single_n = is_n && ks.len() == 1 && ks.as_chars()[0] == 'n';
                let ghost wprev = wholes_of(candidates@);
                let ghost cprev = candidates@;
                proof {
                    lemma_take_to_set_push(sv, i as int);
                    assert(ks@ == sv[i as int]);
                    if is_n && ks@ == seq!['n'] {
                        assert(is_single_n);
                    }
                    if is_single_n {
                        assert(ks@ =~= seq!['n']);
                    }
                    let t = sv.take(i as int).to_set();
                    if keep(sv[i as int]) {
                        assert(t.insert(sv[i as int]).filter(keep) =~= t.filter(keep).insert(sv[i as int]));
                    } else {
                        assert(t.insert(sv[i as int]).filter(keep) =~= t.filter(keep));
                    }
                }
                if is_single_n {
                    match &availability {
                        SingleNAvailability::All(v) => {
                            candidates.push(ChunkKeyStrokeCandidate::new(
                                CandidateKeyStroke::Normal(ks),
                                None,
                                Some(DelayedConfirmedCandidateInfo::new(copy_heads(v))),
                            ));
                        },
                        SingleNAvailability::Partial(v) => {
                            let ghost before = candidates@;
                            candidates.push(ChunkKeyStrokeCandidate::new(
                                CandidateKeyStroke::Normal(ks),
                                Some(v[0]),
                                Some(DelayedConfirmedCandidateInfo::new(copy_heads(v))),
                            ));
                            proof {
                                assert(next_chunk_head->0@.contains(v@[0]));
                                assert forall|x: int|
                                    0 <= x < candidates@.len() && (#[trigger] candidates@[x]).spec_next_chunk_head_constraint() is Some
                                        implies (heads_opt matches Some(h) && h.contains(candidates@[x].spec_next_chunk_head_constraint()->0)) by {
                                    if x < before.len() {
                                        assert(candidates@[x] == before[x]);
                                    }
                                }
                            }
                        },
                        SingleNAvailability::Cannot => {},
                    }
                } else {
                    let ghost before = candidates@;
                    candidates.push(ChunkKeyStrokeCandidate::new(CandidateKeyStroke::Normal(ks), None, None));
                    proof {
                        assert forall|x: int|
                            0 <= x < candidates@.len() && (#[trigger] candidates@[x]).spec_next_chunk_head_constraint() is Some
                                implies (heads_opt matches Some(h) && h.contains(candidates@[x].spec_next_chunk_head_constraint()->0)) by {
                            if x < before.len() {
                                assert(candidates@[x] == before[x]);
                            }
                        }
                    }
                }
                proof {
                    assert(sv.take(i + 1).drop_last() =~= sv.take(i as int));
                    assert(sv.take(i + 1).last() == sv[i as int]);
                    if candidates@.len() != cprev.len() {
                        assert(candidates@ =~= cprev.push(candidates@.last()));
                        lemma_wholes_push(cprev, candidates@.last());
                        assert(candidates@.last().spec_whole() == sv[i as int]);
                        assert(cand_views(candidates@) =~= cand_views(cprev).push(cand_view(candidates@.last())));
                    } else {
                        assert(cand_views(candidates@) =~= cand_views(cprev));
                    }
                }
                i = i + 1;
            }
            proof {
                assert(sv.take(sv.len() as int) =~= sv);
            }
            let ghost dict_part = wholes_of(candidates@);
            let ghost view_part = cand_views(candidates@);
            let ghost hc: Seq<char> = match nv {
                Some((_, h)) => h,
                None => Seq::empty(),
            };
            proof {
                assert(s@ == spell.spec_chars());
                assert(sv == spec_single_char_key_strokes(spell.spec_chars()[0]));
                if is_n {
                    assert(sv.len() == 3 && sv[1] =~= seq!['n', 'n']);
                    assert(keep(sv[1]));
                } else {
                    assert(keep(sv[0]));
                }
                assert(candidates@.len() > 0);
            }
            if is_ltu {
                if let Some(repeat) = ltu_repeat {
                    let mut j: usize = 0;
                    proof {
                        assert(dict_part + repeated_set(repeat@, 0) =~= dict_part);
                        let h = next_chunk_head->0@;
                        lemma_consonant_chars(h);
                        assert(hc == chars_seq(h));
                        if !(next_chunk_spell->0 is DisplayableAscii) {
                            assert(chars_seq(repeat@) == consonant_c(hc));
                        } else {
                            assert(chars_seq(repeat@) =~= Seq::<char>::empty());
                            assert(repeat_views(hc).len() >= 0);
                        }
                        assert(view_part + repeat_views_ascii(nv).take(0) =~= view_part);
                    }
                    while j < repeat.len()
                        invariant
                            j <= repeat@.len(),
                            wholes_of(candidates@) == dict_part + repeated_set(repeat@, j as int),
                            cand_views(candidates@) == view_part + repeat_views_ascii(nv).take(j as int),
                            chars_seq(repeat@) == consonant_c(hc) || chars_seq(repeat@).len() == 0,
                            repeat_views_ascii(nv).len() == repeat@.len(),
                            nv matches Some((a, h)) && h == hc && h == chars_seq(next_chunk_head->0@),
                            forall|y: int| 0 <= y < repeat@.len() ==> #[trigger] repeat_views_ascii(nv)[y] == rep_view(hc, repeat@[y].spec_char()),
                            candidates@.len() > 0,
                            est == 1,
                            forall|x: int| 0 <= x < candidates@.len() ==> (#[trigger] candidates@[x]).spec_whole().len() >= est,
                            heads_opt == heads_view(*next_chunk_head),
                            next_chunk_head matches Some(h) && forall|x: int| 0 <= x < repeat@.len() ==> h@.contains(#[trigger] repeat@[x]),
                            all_wf(candidates@),
                            all_short(candidates@),
                            constraints_within(candidates@, heads_opt),
                        decreases repeat@.len() - j,
                    {
                        let k = repeat[j];
                        let kc = k.to_char();
                        let ks = KeyStrokeString::single(kc);
                        let delayed = if kc == 'l' || kc == 'x' {
                            let mut confirmers: Vec<KeyStrokeChar> = Vec::new();
                            if let Some(heads) = next_chunk_head {
                                let mut x: usize = 0;
                                proof {
                                    assert(chars_seq(confirmers@) =~= same_chars(chars_seq(heads@).take(0), kc));
                                }
                                while x < heads.len()
                                    invariant
                                        x <= heads@.len(),
                                        chars_seq(confirmers@) == same_chars(chars_seq(heads@).take(x as int), kc),
                                        kc == k.spec_char(),
                                    decreases heads@.len() - x,
                                {
                                    proof {
                                        assert(chars_seq(heads@).take(x + 1).drop_last() =~= chars_seq(heads@).take(x as int));
                                        assert(chars_seq(heads@).take(x + 1).last() == heads@[x as int].spec_char());
                                    }
                                    let ghost cb = confirmers@;
                                    if heads[x].same_as(&k) {
                                        confirmers.push(heads[x]);
                                        proof {
                                            assert(chars_seq(confirmers@) =~= chars_seq(cb).push(kc));
                                        }
                                    }
                                    x = x + 1;
                                }
                                proof {
                                    assert(chars_seq(heads@).take(heads@.len() as int) =~= chars_seq(heads@));
                                }
                            }
                            Some(DelayedConfirmedCandidateInfo::new(confirmers))
                        } else {
                            None
                        };
                        let ghost before = candidates@;
                        candidates.push(ChunkKeyStrokeCandidate::new(CandidateKeyStroke::Normal(ks), Some(k), delayed));
                        proof {
                            assert(cand_view(candidates@.last()) == rep_view(hc, kc));
                            assert(repeat_views_ascii(nv).take(j + 1) =~= repeat_views_ascii(nv).take(j as int).push(rep_view(hc, kc)));
                            assert(cand_views(candidates@) =~= cand_views(before).push(cand_view(candidates@.last())));
                            lemma_wholes_push(before, candidates@.last());
                            assert(candidates@ == before.push(candidates@.last()));
                            assert(ks@ =~= seq![k.spec_char()]);
                            assert(repeated_set(repeat@, j + 1) =~= repeated_set(repeat@, j as int).insert(seq![repeat@[j as int].spec_char()])) by {
                                assert forall|w: Seq<char>| repeated_set(repeat@, j + 1).contains(w) implies repeated_set(repeat@, j as int).insert(seq![repeat@[j as int].spec_char()]).contains(w) by {
                                    let x = choose|x: int| 0 <= x < j + 1 && w == seq![(#[trigger] repeat@[x]).spec_char()];
                                    if x < j {
                                        assert(repeated_set(repeat@, j as int).contains(w));
                                    }
                                }
                                assert forall|w: Seq<char>| repeated_set(repeat@, j as int).contains(w) implies repeated_set(repeat@, j + 1).contains(w) by {
                                    let x = choose|x: int| 0 <= x < j && w == seq![(#[trigger] repeat@[x]).spec_char()];
                                }
                                assert(repeated_set(repeat@, j + 1).contains(seq![repeat@[j as int].spec_char()]));
                            }
                            assert(wholes_of(candidates@) =~= dict_part + repeated_set(repeat@, j + 1));
                            assert(next_chunk_head->0@.contains(repeat@[j as int]));
                            assert forall|x: int|
                                0 <= x < candidates@.len() && (#[trigger] candidates@[x]).spec_next_chunk_head_constraint() is Some
                                    implies (heads_opt matches Some(h) && h.contains(candidates@[x].spec_next_chunk_head_constraint()->0)) by {
                                if x < before.len() {
                                    assert(candidates@[x] == before[x]);
                                }
                            }
                        }
                        j = j + 1;
                    }
                }
            }
            proof {
                match ltu_repeat {
                    Some(repeat) => {
                        if is_ltu {
                            assert(repeat_views_ascii(nv).take(repeat_views_ascii(nv).len() as int) =~= repeat_views_ascii(nv));
                        }
                    },
                    None => {
                        assert(repeat_views_ascii(nv) =~= Seq::<CandView>::empty());
                    },
                }
                assert(cand_views(candidates@) =~= view_part + if is_ltu { repeat_views_ascii(nv) } else { Seq::<CandView>::empty() });
            }
            let ghost base_views = cand_views(candidates@);
            proof {
                let next = next_info(*next_chunk_spell, *next_chunk_head);
                let base = sv.to_set();
                if !is_n {
                    assert(base.filter(keep) =~= base);
                }
                if is_n {
                    match (next_chunk_spell, next_chunk_head) {
                        (Some(ns), Some(h)) => {
                            lemma_n_heads_nonempty(h@);
                            lemma_n_heads_len(h@);
                        },
                        _ => {},
                    }
                    assert(n_ok == single_n_usable(next));
                    if n_ok {
                        assert(base.filter(keep) =~= base);
                    } else {
                        assert(base.filter(keep) =~= base.remove(seq!['n']));
                    }
                }
                if is_ltu {
                    match ltu_repeat {
                        Some(repeat) => {
                            let h = next_chunk_head->0@;
                            let ns = next_chunk_spell->0;
                            let heads = chars_of(h);
                            let want = Set::new(|w: Seq<char>| exists|c: char| heads.contains(c) && !is_vowel_or_n_char(c) && w == #[trigger] seq![c]);
                            if ns is DisplayableAscii {
                                assert(repeated_set(repeat@, repeat@.len() as int) =~= Set::<Seq<char>>::empty());
                            } else {
                                lemma_consonant_heads_chars(h);
                                assert(repeated_set(repeat@, repeat@.len() as int) =~= want) by {
                                    assert forall|w: Seq<char>| repeated_set(repeat@, repeat@.len() as int).contains(w) implies want.contains(w) by {
                                        let x = choose|x: int| 0 <= x < repeat@.len() && w == seq![(#[trigger] repeat@[x]).spec_char()];
                                        let c = repeat@[x].spec_char();
                                        assert(chars_of(repeat@).contains(c));
                                        assert(chars_of(h).filter(|c: char| !is_vowel_or_n_char(c)).contains(c));
                                        assert(heads.contains(c) && !is_vowel_or_n_char(c) && w == seq![c]);
                                    }
                                    assert forall|w: Seq<char>| want.contains(w) implies repeated_set(repeat@, repeat@.len() as int).contains(w) by {
                                        let c = choose|c: char| heads.contains(c) && !is_vowel_or_n_char(c) && w == #[trigger] seq![c];
                                        assert(chars_of(h).filter(|c: char| !is_vowel_or_n_char(c)).contains(c));
                                        assert(chars_of(repeat@).contains(c));
                                        let x = choose|x: int| 0 <= x < repeat@.len() && (#[trigger] repeat@[x]).spec_char() == c;
                                        assert(w == seq![repeat@[x].spec_char()]);
                                    }
                                }
                            }
                        },
                        None => {
                            assert(dict_part + Set::<Seq<char>>::empty() =~= dict_part);
                        },
                    }
                }
            }
            if candidates.len() == 0 {
                proof {
                    if !is_ltu {
                        lemma_min_len_le(key_stroke_views(l@), 0);
                    }
                    assert(key_stroke_views(l@)[0] == l@[0]@);
                }
                // Only "ん" could lose a dictionary candidate, and it keeps "nn" and "xn".
                candidates.push(ChunkKeyStrokeCandidate::new(
                    CandidateKeyStroke::Normal(l[0].duplicate()),
                    None,
                    None,
                ));
            }
            proof {
                assert(s@ == spell.spec_chars());
                assert(sv == spec_single_char_key_strokes(spell.spec_chars()[0]));
                assert(base_views == view_part + if is_ltu { repeat_views_ascii(nv) } else { Seq::<CandView>::empty() });
                assert(base_views.len() > 0);
                assert(cand_views(candidates@) == generated_views(*spell, nv));
            }
        },
        ChunkSpell::DoubleChar(s) => {
            let l = dictionary_key_strokes(spell);
            proof {
                assert(spell.spec_chars() != seq!['\u{3063}']);
                lemma_double_min_at_most_three(spell.spec_chars()[0], spell.spec_chars()[1]);
                lemma_double_second_at_least_two(spell.spec_chars()[0], spell.spec_chars()[1]);
            }
            let ghost dv = key_stroke_views(l@);
            let mut i: usize = 0;
            proof {
                assert(candidates@ =~= Seq::<ChunkKeyStrokeCandidate>::empty());
                assert(wholes_of(candidates@) =~= dv.take(0).to_set());
            }
            while i < l.len()
                invariant
                    wf_key_stroke_list(l@),
                    i <= l@.len(),
                    candidates@.len() == i,
                    dv == key_stroke_views(l@),
                    wholes_of(candidates@) == dv.take(i as int).to_set(),
                    cand_views(candidates@) == dict_views(dv.take(i as int), 1),
                    est == min_len(key_stroke_views(l@)),
                    forall|x: int| 0 <= x < candidates@.len() ==> (#[trigger] candidates@[x]).spec_whole().len() >= est,
                    all_wf(candidates@),
                    all_short(candidates@),
                    constraints_within(candidates@, heads_opt),
                decreases l@.len() - i,
            {
                proof {
                    lemma_min_len_le(key_stroke_views(l@), i as int);
                    assert(key_stroke_views(l@)[i as int] == l@[i as int]@);
                }
                let c = ChunkKeyStrokeCandidate::new(CandidateKeyStroke::Double(l[i].duplicate()), None, None);
                proof {
                    lemma_wholes_push(candidates@, c);
                    lemma_take_to_set_push(dv, i as int);
                    assert(dv[i as int] == l@[i as int]@);
                    assert(cand_view(c) == (1int, dv[i as int], Seq::<char>::empty(), None::<char>, None::<Seq<char>>));
                    assert(cand_views(candidates@.push(c)) =~= cand_views(candidates@).push(cand_view(c)));
                    assert(dict_views(dv.take(i + 1), 1) =~= dict_views(dv.take(i as int), 1).push(cand_view(c)));
                }
                candidates.push(c);
                i = i + 1;
            }
            proof {
                assert(dv.take(dv.len() as int) =~= dv);
            }
            let (first, second) = spell.split_double_char();
            proof {
                assert(!crate::utility::spec_is_displayable_ascii(first@[0]));
                assert(!crate::utility::spec_is_displayable_ascii(second@[0]));
            }
            let l1 = single_spell_key_strokes(&first);
            let l2 = single_spell_key_strokes(&second);
            proof {
                assert forall|y: int| 0 <= y < l2@.len() implies (#[trigger] l2@[y])@.len() >= 2 by {
                    assert(key_stroke_views(l2@)[y] == l2@[y]@);
                }
            }
            let ghost v1 = key_stroke_views(l1@);
            let ghost v2 = key_stroke_views(l2@);
            let ghost dset = dv.to_set();
            let mut a: usize = 0;
            proof {
                assert(split_wholes(v1, v2, 0, 0) =~= Set::<Seq<char>>::empty());
                assert(dv.take(dv.len() as int) =~= dv);
                assert(split_views(v1.take(0), v2) =~= Seq::<CandView>::empty());
                assert(dict_views(dv, 1) + split_views(v1.take(0), v2) =~= dict_views(dv, 1));
                assert(wholes_of(candidates@) =~= dset + split_wholes(v1, v2, 0, 0));
            }
            while a < l1.len()
                invariant
                    wf_key_stroke_list(l1@),
                    wf_key_stroke_list(l2@),
                    a <= l1@.len(),
                    v1 == key_stroke_views(l1@),
                    v2 == key_stroke_views(l2@),
                    wholes_of(candidates@) == dset + split_wholes(v1, v2, a as int, 0),
                    cand_views(candidates@) == dict_views(dv, 1) + split_views(v1.take(a as int), v2),
                    est <= 3,
                    forall|y: int| 0 <= y < l2@.len() ==> (#[trigger] l2@[y])@.len() >= 2,
                    forall|x: int| 0 <= x < candidates@.len() ==> (#[trigger] candidates@[x]).spec_whole().len() >= est,
                    candidates@.len() > 0,
                    all_wf(candidates@),
                    all_short(candidates@),
                    constraints_within(candidates@, heads_opt),
                decreases l1@.len() - a,
            {
                let mut b: usize = 0;
                proof {
                    assert(dict_views(dv, 1) + split_views(v1.take(a as int), v2) + split_row(v1[a as int], v2, 0) =~= dict_views(dv, 1)
                        + split_views(v1.take(a as int), v2));
                }
                while b < l2.len()
                    invariant
                        wf_key_stroke_list(l1@),
                        wf_key_stroke_list(l2@),
                        a < l1@.len(),
                        b <= l2@.len(),
                        v1 == key_stroke_views(l1@),
                        v2 == key_stroke_views(l2@),
                        wholes_of(candidates@) == dset + split_wholes(v1, v2, a as int, b as int),
                        cand_views(candidates@) == dict_views(dv, 1) + split_views(v1.take(a as int), v2) + split_row(v1[a as int], v2, b as int),
                        est <= 3,
                        forall|y: int| 0 <= y < l2@.len() ==> (#[trigger] l2@[y])@.len() >= 2,
                        forall|x: int| 0 <= x < candidates@.len() ==> (#[trigger] candidates@[x]).spec_whole().len() >= est,
                        candidates@.len() > 0,
                        all_wf(candidates@),
                        all_short(candidates@),
                        constraints_within(candidates@, heads_opt),
                    decreases l2@.len() - b,
                {
                    let c = ChunkKeyStrokeCandidate::new(
                        CandidateKeyStroke::DoubleSplitted(l1[a].duplicate(), l2[b].duplicate()),
                        None,
                        None,
                    );
                    proof {
                        assert(v1[a as int] == l1@[a as int]@);
                        assert(v2[b as int] == l2@[b as int]@);
                        lemma_wholes_push(candidates@, c);
                        lemma_split_wholes_step(v1, v2, a as int, b as int);
                        assert(cand_view(c) == (2int, v1[a as int], v2[b as int], None::<char>, None::<Seq<char>>));
                        assert(cand_views(candidates@.push(c)) =~= cand_views(candidates@).push(cand_view(c)));
                        assert(split_row(v1[a as int], v2, b + 1) =~= split_row(v1[a as int], v2, b as int).push(cand_view(c)));
                        assert(cand_views(candidates@.push(c)) =~= dict_views(dv, 1) + split_views(v1.take(a as int), v2) + split_row(v1[a as int], v2, b + 1));
                        assert(wholes_of(candidates@.push(c)) =~= dset + split_wholes(v1, v2, a as int, b + 1));
                    }
                    candidates.push(c);
                    b = b + 1;
                }
                proof {
                    lemma_split_wholes_row(v1, v2, a as int);
                    assert(v1.take(a + 1).drop_last() =~= v1.take(a as int));
                    assert(v1.take(a + 1).last() == v1[a as int]);
                    assert(split_row(v1[a as int], v2, v2.len() as int) =~= Seq::new(
                        v2.len(),
                        |j: int| (2int, v1[a as int], v2[j], None::<char>, None::<Seq<char>>),
                    ));
                    assert(dict_views(dv, 1) + split_views(v1.take(a as int), v2) + split_row(v1[a as int], v2, v2.len() as int) =~= dict_views(dv, 1) + split_views(v1.take(a + 1), v2));
                }
                a = a + 1;
            }
            proof {
                assert(v1.take(v1.len() as int) =~= v1);
                lemma_split_wholes_all(v1, v2);
                assert(first@[0] == spell.spec_chars()[0]);
                assert(second@[0] == spell.spec_chars()[1]);
            }
        },
    }
    candidates
}

/// The key stroke strings of the candidates `s`.
pub open spec fn wholes_of(s: Seq<ChunkKeyStrokeCandidate>) -> Set<Seq<char>> {
    Set::new(|w: Seq<char>| exists|j: int| 0 <= j < s.len() && (#[trigger] s[j]).spec_whole() == w)
}

/// The characters of the key strokes `h`.
pub open spec fn chars_of(h: Seq<KeyStrokeChar>) -> Set<char> {
    Set::new(|c: char| exists|x: int| 0 <= x < h.len() && (#[trigger] h[x]).spec_char() == c)
}

/// The first key strokes of the candidates `s`.
pub open spec fn head_chars(s: Seq<ChunkKeyStrokeCandidate>) -> Set<char> {
    Set::new(|c: char| exists|j: int| 0 <= j < s.len() && (#[trigger] s[j]).spec_whole().len() > 0 && s[j].spec_whole()[0] == c)
}

/// Whether the character `c` is a vowel, "y" or "n".
pub open spec fn is_vowel_y_or_n_char(c: char) -> bool {
    c == 'a' || c == 'i' || c == 'u' || c == 'e' || c == 'o' || c == 'y' || c == 'n'
}

/// "n" types "ん" before the chunk `next` (whether it is ASCII, and the key strokes its
/// candidates begin with): the chunk is not ASCII and one of them is not a vowel, "y" or "n".
pub open spec fn single_n_usable(next: Option<(bool, Set<char>)>) -> bool {
    next matches Some((next_ascii, heads)) && !next_ascii && exists|c: char| heads.contains(c) && !is_vowel_y_or_n_char(c)
}

/// The key stroke strings which type the chunk spell `spell`, when a chunk, ASCII when
/// `next.0`, whose candidates begin with the key strokes `next.1` follows it (none when it is
/// the last): its own characters for an ASCII chunk; for two characters, those of the
/// dictionary and those of each character one after the other; for "ん", those of the
/// dictionary, "n" only where it is usable; for "っ", those of the dictionary and the
/// repetition of a head key stroke of a following non-ASCII chunk other than a vowel or "n";
/// otherwise those of the dictionary.
pub open spec fn candidate_wholes(spell: ChunkSpell, next: Option<(bool, Set<char>)>) -> Set<Seq<char>> {
    let chars = spell.spec_chars();
    if spell is DisplayableAscii {
        set![chars]
    } else if chars.len() == 2 {
        spec_double_char_key_strokes(chars[0], chars[1]).to_set() + Set::new(
            |w: Seq<char>|
                exists|a: Seq<char>, b: Seq<char>|
                    spec_single_char_key_strokes(chars[0]).contains(a) && spec_single_char_key_strokes(chars[1]).contains(b)
                        && w == #[trigger] (a + b),
        )
    } else if chars[0] == '\u{3093}' {
        if single_n_usable(next) {
            spec_single_char_key_strokes(chars[0]).to_set()
        } else {
            spec_single_char_key_strokes(chars[0]).to_set().remove(seq!['n'])
        }
    } else if chars[0] == '\u{3063}' {
        spec_single_char_key_strokes(chars[0]).to_set() + match next {
            Some((next_ascii, heads)) => if next_ascii {
                Set::empty()
            } else {
                Set::new(|w: Seq<char>| exists|c: char| heads.contains(c) && !is_vowel_or_n_char(c) && w == #[trigger] seq![c])
            },
            None => Set::empty(),
        }
    } else {
        spec_single_char_key_strokes(chars[0]).to_set()
    }
}

/// The single key strokes of the first `j` of the key strokes `r`.
pub open spec fn repeated_set(r: Seq<KeyStrokeChar>, j: int) -> Set<Seq<char>> {
    Set::new(|w: Seq<char>| exists|x: int| 0 <= x < j && w == seq![(#[trigger] r[x]).spec_char()])
}

/// What `generate_candidates` is given of the next chunk: whether it is ASCII, and the
/// characters of its head key strokes.
pub open spec fn next_info(next_chunk_spell: Option<ChunkSpell>, next_chunk_head: Option<Vec<KeyStrokeChar>>) -> Option<(bool, Set<char>)> {
    match (next_chunk_spell, next_chunk_head) {
        (Some(s), Some(h)) => Some((s is DisplayableAscii, chars_of(h@))),
        _ => None,
    }
}

/// The key strokes of the alternatives of the first character before those of the second:
/// all of the first `a` of the first with any of the second, and the `a`-th with the first
/// `b` of the second.
pub open spec fn split_wholes(v1: Seq<Seq<char>>, v2: Seq<Seq<char>>, a: int, b: int) -> Set<Seq<char>> {
    Set::new(|w: Seq<char>| exists|x: int, y: int| ((0 <= x < a && 0 <= y < v2.len()) || (x == a && 0 <= y < b)) && w == #[trigger] (v1[x] + v2[y]))
}

proof fn lemma_split_wholes_step(v1: Seq<Seq<char>>, v2: Seq<Seq<char>>, a: int, b: int)
    requires
        0 <= a,
        0 <= b < v2.len(),
    ensures
        split_wholes(v1, v2, a, b + 1) == split_wholes(v1, v2, a, b).insert(v1[a] + v2[b]),
{
    let n = split_wholes(v1, v2, a, b + 1);
    let o = split_wholes(v1, v2, a, b).insert(v1[a] + v2[b]);
    assert forall|w: Seq<char>| n.contains(w) <==> o.contains(w) by {
        if n.contains(w) {
            let (x, y) = choose|x: int, y: int| ((0 <= x < a && 0 <= y < v2.len()) || (x == a && 0 <= y < b + 1)) && w == #[trigger] (v1[x] + v2[y]);
            if !(x == a && y == b) {
                assert(split_wholes(v1, v2, a, b).contains(w));
            }
        }
        if split_wholes(v1, v2, a, b).contains(w) {
            let (x, y) = choose|x: int, y: int| ((0 <= x < a && 0 <= y < v2.len()) || (x == a && 0 <= y < b)) && w == #[trigger] (v1[x] + v2[y]);
            assert(n.contains(w));
        }
        if w == v1[a] + v2[b] {
            assert(n.contains(w));
        }
    }
    assert(n =~= o);
}

proof fn lemma_split_wholes_row(v1: Seq<Seq<char>>, v2: Seq<Seq<char>>, a: int)
    requires
        0 <= a,
    ensures
        split_wholes(v1, v2, a, v2.len() as int) == split_wholes(v1, v2, a + 1, 0),
{
    let n = split_wholes(v1, v2, a, v2.len() as int);
    let o = split_wholes(v1, v2, a + 1, 0);
    assert forall|w: Seq<char>| n.contains(w) <==> o.contains(w) by {
        if n.contains(w) {
            let (x, y) = choose|x: int, y: int| ((0 <= x < a && 0 <= y < v2.len()) || (x == a && 0 <= y < v2.len())) && w == #[trigger] (v1[x] + v2[y]);
            assert(o.contains(w));
        }
        if o.contains(w) {
            let (x, y) = choose|x: int, y: int| ((0 <= x < a + 1 && 0 <= y < v2.len()) || (x == a + 1 && 0 <= y < 0)) && w == #[trigger] (v1[x] + v2[y]);
            assert(n.contains(w));
        }
    }
    assert(n =~= o);
}

proof fn lemma_split_wholes_all(v1: Seq<Seq<char>>, v2: Seq<Seq<char>>)
    ensures
        split_wholes(v1, v2, v1.len() as int, 0) == Set::new(
            |w: Seq<char>| exists|a: Seq<char>, b: Seq<char>| v1.contains(a) && v2.contains(b) && w == #[trigger] (a + b),
        ),
{
    let n = split_wholes(v1, v2, v1.len() as int, 0);
    let o = Set::new(|w: Seq<char>| exists|a: Seq<char>, b: Seq<char>| v1.contains(a) && v2.contains(b) && w == #[trigger] (a + b));
    assert forall|w: Seq<char>| n.contains(w) <==> o.contains(w) by {
        if n.contains(w) {
            let (x, y) = choose|x: int, y: int| ((0 <= x < v1.len() && 0 <= y < v2.len()) || (x == v1.len() && 0 <= y < 0)) && w == #[trigger] (v1[x] + v2[y]);
            assert(v1.contains(v1[x]));
            assert(v2.contains(v2[y]));
            assert(o.contains(w));
        }
        if o.contains(w) {
            let (p, q) = choose|a: Seq<char>, b: Seq<char>| v1.contains(a) && v2.contains(b) && w == #[trigger] (a + b);
            let x = choose|x: int| 0 <= x < v1.len() && v1[x] == p;
            let y = choose|y: int| 0 <= y < v2.len() && v2[y] == q;
            assert(w == v1[x] + v2[y]);
            assert(n.contains(w));
        }
    }
    assert(n =~= o);
}

/// Adding a candidate adds its key strokes.
proof fn lemma_wholes_push(s: Seq<ChunkKeyStrokeCandidate>, c: ChunkKeyStrokeCandidate)
    ensures
        wholes_of(s.push(c)) == wholes_of(s).insert(c.spec_whole()),
{
    let t = s.push(c);
    assert forall|w: Seq<char>| wholes_of(t).contains(w) <==> wholes_of(s).insert(c.spec_whole()).contains(w) by {
        if wholes_of(t).contains(w) {
            let j = choose|j: int| 0 <= j < t.len() && (#[trigger] t[j]).spec_whole() == w;
            if j < s.len() {
                assert(s[j] == t[j]);
            }
        }
        if wholes_of(s).contains(w) {
            let j = choose|j: int| 0 <= j < s.len() && (#[trigger] s[j]).spec_whole() == w;
            assert(t[j] == s[j]);
        }
        if w == c.spec_whole() {
            assert(t[s.len() as int] == c);
        }
    }
    assert(wholes_of(t) =~= wholes_of(s).insert(c.spec_whole()));
}

/// The elements of the first `i + 1` entries are those of the first `i` and the next one.
proof fn lemma_take_to_set_push(v: Seq<Seq<char>>, i: int)
    requires
        0 <= i < v.len(),
    ensures
        v.take(i + 1).to_set() == v.take(i).to_set().insert(v[i]),
{
    assert forall|w: Seq<char>| v.take(i + 1).to_set().contains(w) <==> v.take(i).to_set().insert(v[i]).contains(w) by {
        if v.take(i + 1).contains(w) {
            let j = choose|j: int| 0 <= j < v.take(i + 1).len() && #[trigger] v.take(i + 1)[j] == w;
            if j < i {
                assert(v.take(i)[j] == w);
            }
        }
        if v.take(i).contains(w) {
            let j = choose|j: int| 0 <= j < v.take(i).len() && #[trigger] v.take(i)[j] == w;
            assert(v.take(i + 1)[j] == w);
        }
        if w == v[i] {
            assert(v.take(i + 1)[i] == w);
        }
    }
    assert(v.take(i + 1).to_set() =~= v.take(i).to_set().insert(v[i]));
}

/// "n" is usable after the head key strokes `h` exactly when one of them is not a vowel,
/// "y" or "n".
proof fn lemma_n_heads_nonempty(h: Seq<KeyStrokeChar>)
    ensures
        (n_heads(h).len() > 0) == exists|c: char| chars_of(h).contains(c) && !is_vowel_y_or_n_char(c),
    decreases h.len(),
{
    if h.len() > 0 {
        let p = h.drop_last();
        lemma_n_heads_nonempty(p);
        assert(h[h.len() - 1] == h.last());
        if !spec_is_vowel_y_or_n(h.last()) {
            assert(chars_of(h).contains(h.last().spec_char()) && !is_vowel_y_or_n_char(h.last().spec_char()));
            assert(n_heads(h).len() > 0);
        } else {
            assert(n_heads(h) == n_heads(p));
            if exists|c: char| chars_of(p).contains(c) && !is_vowel_y_or_n_char(c) {
                let c = choose|c: char| chars_of(p).contains(c) && !is_vowel_y_or_n_char(c);
                let x = choose|x: int| 0 <= x < p.len() && (#[trigger] p[x]).spec_char() == c;
                assert(h[x] == p[x]);
                assert(chars_of(h).contains(c) && !is_vowel_y_or_n_char(c));
            }
            if exists|c: char| chars_of(h).contains(c) && !is_vowel_y_or_n_char(c) {
                let c = choose|c: char| chars_of(h).contains(c) && !is_vowel_y_or_n_char(c);
                let x = choose|x: int| 0 <= x < h.len() && (#[trigger] h[x]).spec_char() == c;
                if x < p.len() {
                    assert(p[x] == h[x]);
                    assert(chars_of(p).contains(c) && !is_vowel_y_or_n_char(c));
                } else {
                    assert(x == h.len() - 1);
                }
            }
        }
    } else {
        assert(n_heads(h).len() == 0);
        if exists|c: char| chars_of(h).contains(c) && !is_vowel_y_or_n_char(c) {
            let c = choose|c: char| chars_of(h).contains(c) && !is_vowel_y_or_n_char(c);
            assert(chars_of(h).contains(c));
        }
    }
}

/// Keeping some of the head key strokes keeps no more of them.
proof fn lemma_n_heads_len(h: Seq<KeyStrokeChar>)
    ensures
        n_heads(h).len() <= h.len(),
    decreases h.len(),
{
    if h.len() > 0 {
        lemma_n_heads_len(h.drop_last());
    }
}

/// The characters of the consonant heads of `h` are those of `h` other than a vowel or "n".
proof fn lemma_consonant_heads_chars(h: Seq<KeyStrokeChar>)
    ensures
        chars_of(consonant_heads(h)) == chars_of(h).filter(|c: char| !is_vowel_or_n_char(c)),
    decreases h.len(),
{
    if h.len() > 0 {
        let p = h.drop_last();
        lemma_consonant_heads_chars(p);
        let ch = consonant_heads(h);
        let cp = consonant_heads(p);
        assert forall|c: char| chars_of(ch).contains(c) <==> chars_of(h).filter(|c: char| !is_vowel_or_n_char(c)).contains(c) by {
            if chars_of(ch).contains(c) {
                let x = choose|x: int| 0 <= x < ch.len() && (#[trigger] ch[x]).spec_char() == c;
                if x < cp.len() {
                    assert(ch[x] == cp[x]);
                    assert(chars_of(cp).contains(c));
                    let y = choose|y: int| 0 <= y < p.len() && (#[trigger] p[y]).spec_char() == c;
                    assert(h[y] == p[y]);
                } else {
                    assert(ch[x] == h.last());
                    assert(h[h.len() - 1] == h.last());
                }
                assert(chars_of(h).contains(c));
            }
            if chars_of(h).filter(|c: char| !is_vowel_or_n_char(c)).contains(c) {
                let y = choose|y: int| 0 <= y < h.len() && (#[trigger] h[y]).spec_char() == c;
                if y < p.len() {
                    assert(p[y] == h[y]);
                    assert(chars_of(p).contains(c));
                    assert(chars_of(p).filter(|c: char| !is_vowel_or_n_char(c)).contains(c));
                    assert(chars_of(cp).contains(c));
                    let x = choose|x: int| 0 <= x < cp.len() && (#[trigger] cp[x]).spec_char() == c;
                    assert(ch[x] == cp[x]);
                } else {
                    assert(ch[ch.len() - 1] == h.last());
                }
            }
        }
        assert(chars_of(ch) =~= chars_of(h).filter(|c: char| !is_vowel_or_n_char(c)));
    } else {
        assert(chars_of(consonant_heads(h)) =~= chars_of(h).filter(|c: char| !is_vowel_or_n_char(c)));
    }
}

/// What a candidate is made of: its kind (0 one element, 1 both characters at once, 2 the
/// two characters one after the other), the key strokes of its first and second element,
/// the key stroke it requires the next chunk to begin with, and the head key strokes of the
/// next chunk which confirm it while it waits.
pub type CandView = (int, Seq<char>, Seq<char>, Option<char>, Option<Seq<char>>);

/// The characters of the key strokes `h`, in order.
pub open spec fn chars_seq(h: Seq<KeyStrokeChar>) -> Seq<char> {
    Seq::new(h.len(), |i: int| h[i].spec_char())
}

/// What the candidate `c` is made of.
pub open spec fn cand_view(c: ChunkKeyStrokeCandidate) -> CandView {
    let (kind, a, b) = match c.spec_key_stroke() {
        CandidateKeyStroke::Normal(s) => (0int, s@, Seq::<char>::empty()),
        CandidateKeyStroke::Double(s) => (1int, s@, Seq::<char>::empty()),
        CandidateKeyStroke::DoubleSplitted(s1, s2) => (2int, s1@, s2@),
    };
    let constraint = match c.spec_next_chunk_head_constraint() {
        Some(k) => Some(k.spec_char()),
        None => None,
    };
    let delayed = match c.spec_delayed() {
        Some(d) => Some(chars_seq(d.spec_next_chunk_head())),
        None => None,
    };
    (kind, a, b, constraint, delayed)
}

/// What the candidates `s` are made of, in order.
pub open spec fn cand_views(s: Seq<ChunkKeyStrokeCandidate>) -> Seq<CandView> {
    Seq::new(s.len(), |i: int| cand_view(s[i]))
}

/// The number of key strokes of a candidate made of `v`.
pub open spec fn view_len(v: CandView) -> int {
    (v.1.len() + v.2.len()) as int
}

/// The head key strokes of `h` after which "ん" can be typed by "n", in order.
pub open spec fn n_heads_c(h: Seq<char>) -> Seq<char>
    decreases h.len(),
{
    if h.len() == 0 {
        Seq::empty()
    } else if is_vowel_y_or_n_char(h.last()) {
        n_heads_c(h.drop_last())
    } else {
        n_heads_c(h.drop_last()).push(h.last())
    }
}

/// The head key strokes of `h` which are neither a vowel nor "n", in order.
pub open spec fn consonant_c(h: Seq<char>) -> Seq<char>
    decreases h.len(),
{
    if h.len() == 0 {
        Seq::empty()
    } else if is_vowel_or_n_char(h.last()) {
        consonant_c(h.drop_last())
    } else {
        consonant_c(h.drop_last()).push(h.last())
    }
}

/// The key strokes of `h` which are `c`, in order.
pub open spec fn same_chars(h: Seq<char>, c: char) -> Seq<char>
    decreases h.len(),
{
    if h.len() == 0 {
        Seq::empty()
    } else if h.last() == c {
        same_chars(h.drop_last(), c).push(c)
    } else {
        same_chars(h.drop_last(), c)
    }
}

/// How "n" may type "ん" before the next chunk (ASCII when `next.0`, whose candidates begin
/// with `next.1`): not at all (`None`); before any of its head key strokes (`Some((true, v))`);
/// or only before some of them, which it then requires (`Some((false, v))`).
pub open spec fn n_availability(next: Option<(bool, Seq<char>)>) -> Option<(bool, Seq<char>)> {
    match next {
        Some((ascii, h)) => if ascii || n_heads_c(h).len() == 0 {
            None
        } else if n_heads_c(h).len() == h.len() {
            Some((true, h))
        } else {
            Some((false, n_heads_c(h)))
        },
        None => None,
    }
}

/// The first `b` candidates typing the first character by `a`, then the second by one of `v2`.
pub open spec fn split_row(a: Seq<char>, v2: Seq<Seq<char>>, b: int) -> Seq<CandView> {
    Seq::new(b as nat, |j: int| (2int, a, v2[j], None::<char>, None::<Seq<char>>))
}

/// The candidates of a single character chunk from its dictionary key strokes `v`, "n" of
/// "ん" (`is_n`) as `av` allows it.
pub open spec fn single_views(v: Seq<Seq<char>>, is_n: bool, av: Option<(bool, Seq<char>)>) -> Seq<CandView>
    decreases v.len(),
{
    if v.len() == 0 {
        Seq::empty()
    } else {
        let p = single_views(v.drop_last(), is_n, av);
        let w = v.last();
        if is_n && w == seq!['n'] {
            match av {
                Some((all, vs)) => p.push((0, w, Seq::empty(), if all { None } else { Some(vs[0]) }, Some(vs))),
                None => p,
            }
        } else {
            p.push((0, w, Seq::empty(), None, None))
        }
    }
}

/// The candidates by which "っ" repeats a head key stroke of the next chunk, whose head key
/// strokes are `h`: each such key stroke requires the next chunk to begin with it, and "l" and
/// "x" wait for it.
pub open spec fn repeat_views(h: Seq<char>) -> Seq<CandView> {
    let r = consonant_c(h);
    Seq::new(
        r.len(),
        |i: int|
            (
                0int,
                seq![r[i]],
                Seq::<char>::empty(),
                Some(r[i]),
                if r[i] == 'l' || r[i] == 'x' { Some(same_chars(h, r[i])) } else { None },
            ),
    )
}

/// The candidate by which "っ" repeats the head key stroke `c` of the next chunk, whose head
/// key strokes are `h`.
pub open spec fn rep_view(h: Seq<char>, c: char) -> CandView {
    (0int, seq![c], Seq::<char>::empty(), Some(c), if c == 'l' || c == 'x' { Some(same_chars(h, c)) } else { None })
}

/// The candidates by which "っ" repeats a head key stroke of the next chunk `next`: none when
/// there is none or it is ASCII.
pub open spec fn repeat_views_ascii(next: Option<(bool, Seq<char>)>) -> Seq<CandView> {
    match next {
        Some((ascii, h)) => if ascii { Seq::empty() } else { repeat_views(h) },
        None => Seq::empty(),
    }
}

/// The candidates of the dictionary key strokes `v`, of the kind `kind`.
pub open spec fn dict_views(v: Seq<Seq<char>>, kind: int) -> Seq<CandView> {
    Seq::new(v.len(), |i: int| (kind, v[i], Seq::<char>::empty(), None::<char>, None::<Seq<char>>))
}

/// The candidates typing the first character by one of `v1`, then the second by one of `v2`.
pub open spec fn split_views(v1: Seq<Seq<char>>, v2: Seq<Seq<char>>) -> Seq<CandView>
    decreases v1.len(),
{
    if v1.len() == 0 {
        Seq::empty()
    } else {
        split_views(v1.drop_last(), v2) + Seq::new(
            v2.len(),
            |j: int| (2int, v1.last(), v2[j], None::<char>, None::<Seq<char>>),
        )
    }
}

/// The candidates of the chunk spell `spell` before the next chunk (ASCII when `next.0`, whose
/// candidates begin with the key strokes `next.1`; none for the last chunk), in the order in
/// which they are generated.
pub open spec fn generated_views(spell: ChunkSpell, next: Option<(bool, Seq<char>)>) -> Seq<CandView> {
    let chars = spell.spec_chars();
    if spell is DisplayableAscii {
        seq![(0int, chars, Seq::<char>::empty(), None::<char>, None::<Seq<char>>)]
    } else if chars.len() == 2 {
        dict_views(spec_double_char_key_strokes(chars[0], chars[1]), 1) + split_views(
            spec_single_char_key_strokes(chars[0]),
            spec_single_char_key_strokes(chars[1]),
        )
    } else {
        let v = spec_single_char_key_strokes(chars[0]);
        let base = single_views(v, chars[0] == '\u{3093}', n_availability(next)) + if chars[0] == '\u{3063}' {
            repeat_views_ascii(next)
        } else {
            Seq::empty()
        };
        if base.len() == 0 {
            seq![(0int, v[0], Seq::<char>::empty(), None::<char>, None::<Seq<char>>)]
        } else {
            base
        }
    }
}

/// The number of first candidates of `s` of at most `n` key strokes.
pub open spec fn leading_at_most(s: Seq<CandView>, n: int) -> int
    decreases s.len(),
{
    if s.len() == 0 || view_len(s[0]) > n {
        0
    } else {
        1 + leading_at_most(s.drop_first(), n)
    }
}

/// The candidates `v` sorted by their key stroke counts, those of equal counts in their order.
pub open spec fn sort_views(v: Seq<CandView>) -> Seq<CandView>
    decreases v.len(),
{
    if v.len() == 0 {
        Seq::empty()
    } else {
        let r = sort_views(v.drop_last());
        r.insert(leading_at_most(r, view_len(v.last())), v.last())
    }
}

/// The first key strokes of the candidates `s`, each once, in the order of the candidates.
pub open spec fn first_heads(s: Seq<CandView>) -> Seq<char>
    decreases s.len(),
{
    if s.len() == 0 {
        Seq::empty()
    } else {
        let p = first_heads(s.drop_last());
        let c = (s.last().1 + s.last().2)[0];
        if p.contains(c) {
            p
        } else {
            p.push(c)
        }
    }
}

/// The characters of the heads after which "ん" can be typed by "n" are those so chosen from
/// the characters of all the heads.
proof fn lemma_n_heads_chars(h: Seq<KeyStrokeChar>)
    ensures
        chars_seq(n_heads(h)) == n_heads_c(chars_seq(h)),
    decreases h.len(),
{
    if h.len() > 0 {
        lemma_n_heads_chars(h.drop_last());
        assert(chars_seq(h.drop_last()) =~= chars_seq(h).drop_last());
        assert(chars_seq(n_heads(h.drop_last()).push(h.last())) =~= chars_seq(n_heads(h.drop_last())).push(h.last().spec_char()));
    } else {
        assert(chars_seq(n_heads(h)) =~= n_heads_c(chars_seq(h)));
    }
}

/// The characters of the consonant heads are the consonants among the characters of the heads.
proof fn lemma_consonant_chars(h: Seq<KeyStrokeChar>)
    ensures
        chars_seq(consonant_heads(h)) == consonant_c(chars_seq(h)),
    decreases h.len(),
{
    if h.len() > 0 {
        lemma_consonant_chars(h.drop_last());
        assert(chars_seq(h.drop_last()) =~= chars_seq(h).drop_last());
        assert(chars_seq(consonant_heads(h.drop_last()).push(h.last())) =~= chars_seq(consonant_heads(h.drop_last())).push(h.last().spec_char()));
    } else {
        assert(chars_seq(consonant_heads(h)) =~= consonant_c(chars_seq(h)));
    }
}

/// A copy of the key strokes `v`.
fn copy_heads(v: &Vec<KeyStrokeChar>) -> (r: Vec<KeyStrokeChar>)
    ensures
        r@ == v@,
{
    let mut r: Vec<KeyStrokeChar> = Vec::new();
    let mut i: usize = 0;
    while i < v.len()
        invariant
            i <= v@.len(),
            r@ == v@.take(i as int),
        decreases v@.len() - i,
    {
        r.push(v[i]);
        i = i + 1;
        assert(r@ =~= v@.take(i as int));
    }
    assert(v@.take(v@.len() as int) =~= v@);
    r
}

/// What the next chunk is as `generate_candidates` is given it: whether it is ASCII, and its
/// head key strokes.
pub open spec fn next_view(next_chunk_spell: Option<ChunkSpell>, next_chunk_head: Option<Vec<KeyStrokeChar>>) -> Option<(bool, Seq<char>)> {
    match (next_chunk_spell, next_chunk_head) {
        (Some(s), Some(h)) => Some((s is DisplayableAscii, chars_seq(h@))),
        _ => None,
    }
}

/// The availability of "n" as its view.
pub open spec fn availability_view(a: SingleNAvailability) -> Option<(bool, Seq<char>)> {
    match a {
        SingleNAvailability::All(v) => Some((true, chars_seq(v@))),
        SingleNAvailability::Partial(v) => Some((false, chars_seq(v@))),
        SingleNAvailability::Cannot => None,
    }
}

/// Sorts candidates by their key stroke counts, keeping the order of candidates with equal
/// counts.
fn sort_by_count(v: Vec<ChunkKeyStrokeCandidate>) -> (r: Vec<ChunkKeyStrokeCandidate>)
    requires
        all_wf(v@),
    ensures
        r@.to_multiset() == v@.to_multiset(),
        r@.len() == v@.len(),
        sorted_by_count(r@),
        all_wf(r@),
        cand_views(r@) == sort_views(cand_views(v@)),
{
    broadcast use vstd::seq_lib::group_to_multiset_ensures;
    broadcast use vstd::multiset::group_multiset_axioms;

    let ghost v0 = v@;
    let ghost w0 = cand_views(v@);
    assert(cand_views(Seq::<ChunkKeyStrokeCandidate>::empty()) =~= sort_views(w0.take(0)));
    let mut v = v;
    let mut r: Vec<ChunkKeyStrokeCandidate> = Vec::new();
    assert(r@.to_multiset() =~= Multiset::empty());
    while v.len() > 0
        invariant
            r@.to_multiset().add(v@.to_multiset()) == v0.to_multiset(),
            r@.len() + v@.len() == v0.len(),
            sorted_by_count(r@),
            all_wf(r@),
            all_wf(v@),
            w0 == cand_views(v0),
            v@ == v0.skip(v0.len() - v@.len()),
            cand_views(r@) == sort_views(w0.take(v0.len() - v@.len())),
        decreases v@.len(),
    {
        let ghost vb = v@;
        let ghost k = v0.len() - v@.len();
        let x = v.remove(0);
        assert(vb.remove(0) == v@);
        let count = x.calc_key_stroke_count();
        let mut p: usize = 0;
        while p < r.len() && r[p].calc_key_stroke_count() <= count
            invariant
                p <= r@.len(),
                all_wf(r@),
                forall|j: int| 0 <= j < p ==> (#[trigger] r@[j]).spec_whole().len() <= count,
            decreases r@.len() - p,
        {
            p = p + 1;
        }
        let ghost rb = r@;
        r.insert(p, x);
        proof {
            assert(r@ == rb.insert(p as int, x));
            assert(x == v0[k]);
            assert(w0.take(k + 1).drop_last() =~= w0.take(k));
            assert(w0.take(k + 1).last() == cand_view(x));
            lemma_view_len(x);
            assert forall|j: int| 0 <= j < p implies view_len(#[trigger] cand_views(rb)[j]) <= count by {
                lemma_view_len(rb[j]);
            }
            if p < rb.len() {
                lemma_view_len(rb[p as int]);
            }
            lemma_leading_at_most(cand_views(rb), count as int, p as int);
            assert(cand_views(r@) =~= cand_views(rb).insert(p as int, cand_view(x)));
            assert(v@ =~= v0.skip(k + 1));
        }
        proof {
            broadcast use vstd::seq_lib::group_to_multiset_ensures;
            broadcast use vstd::multiset::group_multiset_axioms;
            assert(r@ == rb.insert(p as int, x));
            assert(vb.contains(x));
            assert(vb.to_multiset().count(x) > 0);
            assert(v@.to_multiset() =~= vb.to_multiset().remove(x));
            assert(r@.to_multiset() =~= rb.to_multiset().insert(x));
            assert(r@.to_multiset().add(v@.to_multiset()) =~= rb.to_multiset().add(vb.to_multiset()));
            assert forall|i: int, j: int| 0 <= i < j < r@.len() implies
                (#[trigger] r@[i]).spec_whole().len() <= (#[trigger] r@[j]).spec_whole().len() by {
                if i < p && j == p {
                } else if i == p && j > p {
                    assert(r@[j] == rb[j - 1]);
                    if p < rb.len() {
                        assert(rb[p as int].spec_whole().len() > count);
                        assert(rb[p as int].spec_whole().len() <= rb[j - 1].spec_whole().len());
                    }
                } else if i < p && j > p {
                    assert(r@[j] == rb[j - 1]);
                } else if i > p {
                    assert(r@[i] == rb[i - 1]);
                    assert(r@[j] == rb[j - 1]);
                }
            }
            assert forall|i: int| 0 <= i < r@.len() implies (#[trigger] r@[i]).wf() by {
                if i > p {
                    assert(r@[i] == rb[i - 1]);
                }
            }
        }
    }
    proof {
        assert(w0.take(v0.len() as int) =~= w0);
    }
    r
}

/// A candidate has as many key strokes as what it is made of.
proof fn lemma_view_len(c: ChunkKeyStrokeCandidate)
    ensures
        view_len(cand_view(c)) == c.spec_whole().len(),
{
}

/// The number of first candidates of at most `n` key strokes is `p` when the first `p` have at
/// most `n` and the next, if any, more.
proof fn lemma_leading_at_most(s: Seq<CandView>, n: int, p: int)
    requires
        0 <= p <= s.len(),
        forall|j: int| 0 <= j < p ==> view_len(#[trigger] s[j]) <= n,
        p < s.len() ==> view_len(s[p]) > n,
    ensures
        leading_at_most(s, n) == p,
    decreases p,
{
    if p > 0 {
        let t = s.drop_first();
        assert forall|j: int| 0 <= j < p - 1 implies view_len(#[trigger] t[j]) <= n by {
            assert(t[j] == s[j + 1]);
        }
        if p - 1 < t.len() {
            assert(t[p - 1] == s[p]);
        }
        lemma_leading_at_most(t, n, p - 1);
        assert(view_len(s[0]) <= n);
    } else if s.len() > 0 {
        assert(view_len(s[0]) > n);
    }
}

/// Some candidate begins with the key stroke `k`.
pub open spec fn has_starting(s: Seq<ChunkKeyStrokeCandidate>, k: KeyStrokeChar) -> bool {
    exists|j: int| 0 <= j < s.len() && starts_with(#[trigger] s[j], k)
}

/// The first key strokes of the candidates, each once, in the order of the candidates.
fn head_key_strokes(candidates: &Vec<ChunkKeyStrokeCandidate>) -> (r: Vec<KeyStrokeChar>)
    requires
        all_wf(candidates@),
        forall|j: int| 0 <= j < candidates@.len() ==> (#[trigger] candidates@[j]).spec_whole().len() > 0,
    ensures
        forall|x: int| 0 <= x < r@.len() ==> has_starting(candidates@, #[trigger] r@[x]),
        forall|j: int| 0 <= j < candidates@.len() ==> #[trigger] covered(candidates@, r@, j),
        chars_seq(r@) == first_heads(cand_views(candidates@)),
{
    let mut r: Vec<KeyStrokeChar> = Vec::new();
    let mut i: usize = 0;
    assert(chars_seq(r@) =~= first_heads(cand_views(candidates@).take(0)));
    while i < candidates.len()
        invariant
            chars_seq(r@) == first_heads(cand_views(candidates@).take(i as int)),
            all_wf(candidates@),
            forall|j: int| 0 <= j < candidates@.len() ==> (#[trigger] candidates@[j]).spec_whole().len() > 0,
            i <= candidates@.len(),
            forall|x: int| 0 <= x < r@.len() ==> has_starting(candidates@, #[trigger] r@[x]),
            forall|j: int| 0 <= j < i ==> #[trigger] covered(candidates@, r@, j),
        decreases candidates@.len() - i,
    {
        let first = candidates[i].key_stroke_char_at_position(0);
        let mut found = false;
        let mut x: usize = 0;
        while x < r.len()
            invariant
                x <= r@.len(),
                found ==> exists|y: int| 0 <= y < r@.len() && r@[y].spec_char() == first.spec_char(),
                !found ==> forall|y: int| 0 <= y < x ==> r@[y].spec_char() != first.spec_char(),
            decreases r@.len() - x,
        {
            if r[x].same_as(&first) {
                found = true;
            }
            x = x + 1;
        }
        let ghost rb = r@;
        proof {
            let vs = cand_views(candidates@);
            let c = first.spec_char();
            assert(vs.take(i + 1).drop_last() =~= vs.take(i as int));
            assert(vs.take(i + 1).last() == cand_view(candidates@[i as int]));
            lemma_view_len(candidates@[i as int]);
            assert((cand_view(candidates@[i as int]).1 + cand_view(candidates@[i as int]).2) =~= candidates@[i as int].spec_whole());
            if found {
                let y = choose|y: int| 0 <= y < r@.len() && r@[y].spec_char() == c;
                assert(chars_seq(rb)[y] == c);
                assert(chars_seq(rb).contains(c));
            } else {
                if chars_seq(rb).contains(c) {
                    let y = choose|y: int| 0 <= y < chars_seq(rb).len() && chars_seq(rb)[y] == c;
                    assert(rb[y].spec_char() == c);
                }
            }
        }
        if !found {
            r.push(first);
            proof {
                assert(chars_seq(r@) =~= chars_seq(rb).push(first.spec_char()));
            }
            proof {
                assert(starts_with(candidates@[i as int], first));
                assert(has_starting(candidates@, first));
                assert forall|y: int| 0 <= y < r@.len() implies has_starting(candidates@, #[trigger] r@[y]) by {
                    if y < rb.len() {
                        assert(r@[y] == rb[y]);
                    }
                }
                assert forall|j: int| 0 <= j <= i implies #[trigger] covered(candidates@, r@, j) by {
                    if j < i {
                        assert(covered(candidates@, rb, j));
                        let y = choose|y: int| 0 <= y < rb.len() && starts_with(candidates@[j], rb[y]);
                        assert(r@[y] == rb[y]);
                    } else {
                        assert(starts_with(candidates@[j], r@[rb.len() as int]));
                    }
                }
            }
        } else {
            proof {
                let y = choose|y: int| 0 <= y < r@.len() && r@[y].spec_char() == first.spec_char();
                assert(starts_with(candidates@[i as int], r@[y]));
                assert(covered(candidates@, r@, i as int));
            }
        }
        i = i + 1;
    }
    assert(cand_views(candidates@).take(candidates@.len() as int) =~= cand_views(candidates@));
    r
}

/// Some key stroke of `r` is the first key stroke of the candidate at `j`.
pub open spec fn covered(candidates: Seq<ChunkKeyStrokeCandidate>, r: Seq<KeyStrokeChar>, j: int) -> bool {
    exists|x: int| 0 <= x < r.len() && starts_with(candidates[j], #[trigger] r[x])
}

/// The head key strokes by whose repetition "っ" can be typed before a chunk: none before an
/// ASCII chunk, otherwise every consonant except "n".
fn ltu_repeat_key_strokes(heads: &Vec<KeyStrokeChar>, next_is_ascii: bool) -> (r: Vec<KeyStrokeChar>)
    ensures
        forall|i: int| 0 <= i < r@.len() ==> heads@.contains(#[trigger] r@[i]),
        next_is_ascii ==> r@.len() == 0,
        forall|i: int| 0 <= i < r@.len() ==> !is_vowel_or_n_char(#[trigger] r@[i].spec_char()),
        !next_is_ascii ==> r@ == consonant_heads(heads@),
{
    let mut r: Vec<KeyStrokeChar> = Vec::new();
    if next_is_ascii {
        return r;
    }
    let mut i: usize = 0;
    assert(r@ =~= consonant_heads(heads@.subrange(0, 0)));
    while i < heads.len()
        invariant
            i <= heads@.len(),
            forall|x: int| 0 <= x < r@.len() ==> heads@.contains(#[trigger] r@[x]),
            forall|x: int| 0 <= x < r@.len() ==> !is_vowel_or_n_char(#[trigger] r@[x].spec_char()),
            r@ == consonant_heads(heads@.subrange(0, i as int)),
        decreases heads@.len() - i,
    {
        proof {
            assert(heads@.subrange(0, i + 1).drop_last() == heads@.subrange(0, i as int));
            assert(heads@.subrange(0, i + 1).last() == heads@[i as int]);
        }
        let k = heads[i];
        let c = k.to_char();
        if !(c == 'a' || c == 'i' || c == 'u' || c == 'e' || c == 'o' || c == 'n') {
            assert(heads@.contains(heads@[i as int]));
            r.push(k);
        }
        i = i + 1;
    }
    assert(heads@.subrange(0, heads@.len() as int) == heads@);
    r
}

/// The head key strokes of `h`, in order, which are neither a vowel nor "n".
pub open spec fn consonant_heads(h: Seq<KeyStrokeChar>) -> Seq<KeyStrokeChar>
    decreases h.len(),
{
    if h.len() == 0 {
        Seq::empty()
    } else if is_vowel_or_n_char(h.last().spec_char()) {
        consonant_heads(h.drop_last())
    } else {
        consonant_heads(h.drop_last()).push(h.last())
    }
}

/// Whether `c` is a vowel or "n".
pub open spec fn is_vowel_or_n_char(c: char) -> bool {
    c == 'a' || c == 'i' || c == 'u' || c == 'e' || c == 'o' || c == 'n'
}

/// The head restriction that the chunk at `i` inherits from the ideal candidate of the chunk
/// before it.
pub open spec fn inherited_head(r: Seq<ChunkUnprocessed>, i: int) -> Option<KeyStrokeChar> {
    if i == 0 {
        None
    } else {
        r[i - 1].spec_ideal().spec_next_chunk_head_constraint()
    }
}

/// Every candidate constraining the next chunk names a key stroke with which some candidate
/// of the next chunk begins; the last chunk constrains nothing.
pub open spec fn constraints_lead(r: Seq<ChunkUnprocessed>, i: int) -> bool {
    forall|c: int|
        0 <= c < r[i].spec_candidates().len() && (#[trigger] r[i].spec_candidates()[c]).spec_next_chunk_head_constraint() is Some
            ==> i + 1 < r.len() && has_starting(r[i + 1].spec_candidates(), r[i].spec_candidates()[c].spec_next_chunk_head_constraint()->0)
}

/// The sorted key stroke candidates of a chunk given what follows it, the distinct head key
/// strokes of those candidates, and the head key strokes by whose repetition "っ" can be typed
/// before this chunk.
fn chunk_candidates(
    spell: &ChunkSpell,
    next_spell: &Option<ChunkSpell>,
    next_head: &Option<Vec<KeyStrokeChar>>,
    ltu: &Option<Vec<KeyStrokeChar>>,
) -> (r: (Vec<ChunkKeyStrokeCandidate>, Vec<KeyStrokeChar>, Vec<KeyStrokeChar>))
    requires
        spell.wf(),
        ltu matches Some(l) ==> next_head matches Some(h) && forall|i: int|
            0 <= i < l@.len() ==> h@.contains(#[trigger] l@[i]),
        ltu matches Some(l) ==> next_spell matches Some(ns) && next_head matches Some(h) && l@ == (if ns is DisplayableAscii {
            Seq::<KeyStrokeChar>::empty()
        } else {
            consonant_heads(h@)
        }),
        ltu is None ==> next_head is None,
    ensures
        wholes_of(r.0@) == candidate_wholes(*spell, next_info(*next_spell, *next_head)),
        cand_views(r.0@) == sort_views(generated_views(*spell, next_view(*next_spell, *next_head))),
        chars_seq(r.1@) == first_heads(cand_views(r.0@)),
        chars_of(r.1@) == head_chars(r.0@),
        r.2@ == (if spell is DisplayableAscii { Seq::<KeyStrokeChar>::empty() } else { consonant_heads(r.1@) }),
        r.0@.len() > 0,
        all_wf(r.0@),
        sorted_by_count(r.0@),
        constraints_within(r.0@, heads_view(*next_head)),
        ascii_single(r.0@, *spell),
        forall|x: int| 0 <= x < r.1@.len() ==> has_starting(r.0@, #[trigger] r.1@[x]),
        forall|i: int| 0 <= i < r.2@.len() ==> r.1@.contains(#[trigger] r.2@[i]),
        at_least_estimate(r.0@, *spell),
{
    broadcast use vstd::seq_lib::group_to_multiset_ensures;

    let generated = generate_candidates(spell, next_spell, next_head, ltu);
    let candidates = sort_by_count(generated);
    proof {
        assert forall|j: int| 0 <= j < candidates@.len() implies generated@.contains(#[trigger] candidates@[j]) by {
            assert(candidates@.contains(candidates@[j]));
            assert(candidates@.to_multiset().count(candidates@[j]) > 0);
            assert(generated@.to_multiset().count(candidates@[j]) > 0);
        }
        assert forall|j: int| 0 <= j < candidates@.len() implies (#[trigger] candidates@[j]).spec_whole().len() > 0 by {
            assert(generated@.contains(candidates@[j]));
        }
        assert forall|j: int| 0 <= j < candidates@.len() implies (#[trigger] candidates@[j]).spec_whole().len()
            >= spec_estimate_of(*spell) by {
            assert(generated@.contains(candidates@[j]));
        }
        assert forall|j: int| 0 <= j < candidates@.len() && (#[trigger] candidates@[j]).spec_next_chunk_head_constraint() is Some implies
            (heads_view(*next_head) matches Some(h) && h.contains(candidates@[j].spec_next_chunk_head_constraint()->0)) by {
            assert(generated@.contains(candidates@[j]));
        }
        if spell is DisplayableAscii {
            assert(generated@.contains(generated@[0]));
            assert(generated@.to_multiset().count(generated@[0]) > 0);
            assert(candidates@.to_multiset().count(generated@[0]) > 0);
            assert(candidates@.contains(generated@[0]));
        }
    }
    proof {
        assert forall|w: Seq<char>| wholes_of(candidates@).contains(w) <==> wholes_of(generated@).contains(w) by {
            if wholes_of(candidates@).contains(w) {
                let j = choose|j: int| 0 <= j < candidates@.len() && (#[trigger] candidates@[j]).spec_whole() == w;
                assert(generated@.contains(candidates@[j]));
                let k = choose|k: int| 0 <= k < generated@.len() && generated@[k] == candidates@[j];
                assert(generated@[k].spec_whole() == w);
            }
            if wholes_of(generated@).contains(w) {
                let k = choose|k: int| 0 <= k < generated@.len() && (#[trigger] generated@[k]).spec_whole() == w;
                assert(generated@.contains(generated@[k]));
                assert(generated@.to_multiset().count(generated@[k]) > 0);
                assert(candidates@.to_multiset().count(generated@[k]) > 0);
                assert(candidates@.contains(generated@[k]));
                let j = choose|j: int| 0 <= j < candidates@.len() && candidates@[j] == generated@[k];
                assert(candidates@[j].spec_whole() == w);
            }
        }
        assert(wholes_of(candidates@) =~= wholes_of(generated@));
    }
    let heads = head_key_strokes(&candidates);
    proof {
        assert forall|c: char| chars_of(heads@).contains(c) <==> head_chars(candidates@).contains(c) by {
            if chars_of(heads@).contains(c) {
                let x = choose|x: int| 0 <= x < heads@.len() && (#[trigger] heads@[x]).spec_char() == c;
                assert(has_starting(candidates@, heads@[x]));
                let j = choose|j: int| 0 <= j < candidates@.len() && starts_with(#[trigger] candidates@[j], heads@[x]);
                assert(candidates@[j].spec_whole().len() > 0 && candidates@[j].spec_whole()[0] == c);
            }
            if head_chars(candidates@).contains(c) {
                let j = choose|j: int| 0 <= j < candidates@.len() && (#[trigger] candidates@[j]).spec_whole().len() > 0 && candidates@[j].spec_whole()[0] == c;
                assert(covered(candidates@, heads@, j));
                let x = choose|x: int| 0 <= x < heads@.len() && starts_with(candidates@[j], #[trigger] heads@[x]);
                assert(heads@[x].spec_char() == c);
            }
        }
        assert(chars_of(heads@) =~= head_chars(candidates@));
    }
    let repeat = ltu_repeat_key_strokes(&heads, spell.is_displayable_ascii());
    (candidates, heads, repeat)
}

/// The properties of the candidate list at `k` of the lists from the last chunk back.
pub open spec fn rev_list_ok(rev: Seq<Vec<ChunkKeyStrokeCandidate>>, k: int, spell: ChunkSpell) -> bool {
    &&& rev[k]@.len() > 0
    &&& all_wf(rev[k]@)
    &&& sorted_by_count(rev[k]@)
    &&& constraints_lead_rev(rev, k)
    &&& ascii_single(rev[k]@, spell)
    &&& at_least_estimate(rev[k]@, spell)
}

/// Every candidate has at least as many key strokes as estimated for the spell `spell`.
pub open spec fn at_least_estimate(s: Seq<ChunkKeyStrokeCandidate>, spell: ChunkSpell) -> bool {
    forall|j: int| 0 <= j < s.len() ==> (#[trigger] s[j]).spec_whole().len() >= spec_estimate_of(spell)
}

/// The candidate lists of the chunks, from the last chunk back to the first one.
fn candidate_lists_from_last(chunks: &[ChunkCandidateUnappended]) -> (rev: Vec<Vec<ChunkKeyStrokeCandidate>>)
    requires
        forall|i: int| 0 <= i < chunks@.len() ==> (#[trigger] chunks@[i]).spec_spell().wf(),
    ensures
        rev@.len() == chunks@.len(),
        forall|k: int| 0 <= k < rev@.len() ==> #[trigger] rev_list_ok(rev@, k, chunks@[chunks@.len() - 1 - k].spec_spell()),
        forall|k: int| 0 <= k < rev@.len() ==> #[trigger] rev_wholes_ok(rev@, k, chunks@, chunks@.len() as int),
        forall|k: int| 0 <= k < rev@.len() ==> #[trigger] rev_views_ok(rev@, k, chunks@, chunks@.len() as int),
{
    let n = chunks.len();
    let mut rev: Vec<Vec<ChunkKeyStrokeCandidate>> = Vec::new();
    let mut next_spell: Option<ChunkSpell> = None;
    let mut next_head: Option<Vec<KeyStrokeChar>> = None;
    let mut ltu: Option<Vec<KeyStrokeChar>> = None;
    let mut i: usize = n;
    while i > 0
        invariant
            n == chunks@.len(),
            forall|k: int| 0 <= k < chunks@.len() ==> (#[trigger] chunks@[k]).spec_spell().wf(),
            i <= n,
            rev@.len() == n - i,
            next_head is None <==> rev@.len() == 0,
            next_head matches Some(h) ==> forall|x: int| 0 <= x < h@.len() ==> has_starting(rev@.last()@, #[trigger] h@[x]),
            ltu matches Some(l) ==> next_head matches Some(h) && forall|x: int| 0 <= x < l@.len() ==> h@.contains(#[trigger] l@[x]),
            forall|k: int| 0 <= k < rev@.len() ==> #[trigger] rev_list_ok(rev@, k, chunks@[n - 1 - k].spec_spell()),
            forall|k: int| 0 <= k < rev@.len() ==> #[trigger] rev_wholes_ok(rev@, k, chunks@, n as int),
            forall|k: int| 0 <= k < rev@.len() ==> #[trigger] rev_views_ok(rev@, k, chunks@, n as int),
            rev@.len() > 0 ==> (next_head matches Some(h) && chars_seq(h@) == first_heads(cand_views(rev@.last()@))),
            (ltu is None) == (rev@.len() == 0),
            (next_spell is None) == (rev@.len() == 0),
            rev@.len() > 0 ==> (next_spell matches Some(ns) && ns.same_as(chunks@[i as int].spec_spell())),
            rev@.len() > 0 ==> (next_head matches Some(h) && chars_of(h@) == head_chars(rev@.last()@)),
            ltu matches Some(l) ==> next_spell matches Some(ns) && next_head matches Some(h) && l@ == (if ns is DisplayableAscii {
                Seq::<KeyStrokeChar>::empty()
            } else {
                consonant_heads(h@)
            }),
        decreases i,
    {
        i = i - 1;
        let spell = chunks[i].spell();
        let (candidates, heads, repeat) = chunk_candidates(spell, &next_spell, &next_head, &ltu);
        let ghost rb = rev@;
        let ghost nh = next_head;
        let ghost ns0 = next_spell;
        proof {
            assert(next_info(next_spell, next_head) == if rb.len() == 0 {
                None
            } else {
                Some((chunks@[n - rb.len()].spec_spell() is DisplayableAscii, head_chars(rb.last()@)))
            });
        }
        next_spell = Some(spell.duplicate());
        next_head = Some(heads);
        ltu = Some(repeat);
        rev.push(candidates);
        proof {
            assert(rev@.last() == candidates);
            assert(next_view(ns0, nh) == if rb.len() == 0 {
                None
            } else {
                Some((chunks@[n - rb.len()].spec_spell() is DisplayableAscii, first_heads(cand_views(rb.last()@))))
            });
            assert forall|k: int| 0 <= k < rev@.len() implies #[trigger] rev_views_ok(rev@, k, chunks@, n as int) by {
                if k < rb.len() {
                    assert(rev@[k] == rb[k]);
                    assert(rev_views_ok(rb, k, chunks@, n as int));
                    if k > 0 {
                        assert(rev@[k - 1] == rb[k - 1]);
                    }
                } else {
                    assert(rev@[k] == candidates);
                    if k > 0 {
                        assert(rev@[k - 1] == rb.last());
                    }
                }
            }
            assert forall|k: int| 0 <= k < rev@.len() implies #[trigger] rev_wholes_ok(rev@, k, chunks@, n as int) by {
                if k < rb.len() {
                    assert(rev@[k] == rb[k]);
                    assert(rev_wholes_ok(rb, k, chunks@, n as int));
                    if k > 0 {
                        assert(rev@[k - 1] == rb[k - 1]);
                    }
                } else {
                    assert(rev@[k] == candidates);
                    if k > 0 {
                        assert(rev@[k - 1] == rb.last());
                    }
                }
            }
            assert forall|k: int| 0 <= k < rev@.len() implies #[trigger] rev_list_ok(rev@, k, chunks@[n - 1 - k].spec_spell()) by {
                if k < rb.len() {
                    assert(rev@[k] == rb[k]);
                    assert(rev_list_ok(rb, k, chunks@[n - 1 - k].spec_spell()));
                    if k > 0 {
                        assert(rev@[k - 1] == rb[k - 1]);
                    }
                } else {
                    assert(rev@[k] == candidates);
                    assert forall|j: int| 0 <= j < candidates@.len() && (#[trigger] candidates@[j]).spec_next_chunk_head_constraint() is Some implies
                        k > 0 && has_starting(rev@[k - 1]@, candidates@[j].spec_next_chunk_head_constraint()->0) by {
                        let kk = candidates@[j].spec_next_chunk_head_constraint()->0;
                        let h = nh->0@;
                        assert(h.contains(kk));
                        let x = choose|x: int| 0 <= x < h.len() && h[x] == kk;
                        assert(has_starting(rb.last()@, h[x]));
                        assert(rev@[k - 1] == rb.last());
                    }
                }
            }
        }
    }
    rev
}

/// The key strokes of the candidate list at `k` of the lists from the last of the `n` chunks
/// back are those which type its chunk before the chunk after it.
pub open spec fn rev_wholes_ok(rev: Seq<Vec<ChunkKeyStrokeCandidate>>, k: int, chunks: Seq<ChunkCandidateUnappended>, n: int) -> bool {
    wholes_of(rev[k]@) == candidate_wholes(
        chunks[n - 1 - k].spec_spell(),
        if k == 0 {
            None
        } else {
            Some((chunks[n - k].spec_spell() is DisplayableAscii, head_chars(rev[k - 1]@)))
        },
    )
}

/// The candidate list at `k` of the lists from the last of the `n` chunks back is the one
/// generated for its chunk before the chunk after it, sorted by key stroke count.
pub open spec fn rev_views_ok(rev: Seq<Vec<ChunkKeyStrokeCandidate>>, k: int, chunks: Seq<ChunkCandidateUnappended>, n: int) -> bool {
    cand_views(rev[k]@) == sort_views(
        generated_views(
            chunks[n - 1 - k].spec_spell(),
            if k == 0 {
                None
            } else {
                Some((chunks[n - k].spec_spell() is DisplayableAscii, first_heads(cand_views(rev[k - 1]@))))
            },
        ),
    )
}

/// Assigns key stroke candidates to a whole sequence of chunks. The candidates of a chunk
/// depend on the chunk after it, and are sorted by their key stroke counts; the ideal
/// candidate of each chunk is the first of the fewest key strokes among those meeting the
/// head restriction left by the ideal candidate of the chunk before it.
#[verifier::rlimit(60)]
pub fn append_key_stroke_to_chunks(chunks: &[ChunkCandidateUnappended]) -> (r: Vec<ChunkUnprocessed>)
    requires
        forall|i: int| 0 <= i < chunks@.len() ==> (#[trigger] chunks@[i]).spec_spell().wf(),
    ensures
        r@.len() == chunks@.len(),
        forall|i: int| 0 <= i < r@.len() ==> (#[trigger] r@[i]).wf(),
        forall|i: int| 0 <= i < r@.len() ==> (#[trigger] r@[i]).spec_spell().same_as(chunks@[i].spec_spell()),
        forall|i: int| 0 <= i < r@.len() ==> sorted_by_count(#[trigger] r@[i].spec_candidates()),
        forall|i: int| 0 <= i < r@.len() ==> #[trigger] constraints_lead(r@, i),
        forall|i: int| 0 <= i < r@.len() ==> #[trigger] ideal_is_min(r@, i),
        forall|i: int| 0 <= i < r@.len() ==> ascii_single((#[trigger] r@[i]).spec_candidates(), r@[i].spec_spell()),
        forall|i: int| 0 <= i < r@.len() ==> spec_min_count((#[trigger] r@[i]).spec_candidates()) >= chunks@[i].spec_estimate(),
        forall|i: int| 0 <= i < r@.len() ==> #[trigger] chunk_wholes_ok(r@, chunks@, i),
        forall|i: int| 0 <= i < r@.len() ==> #[trigger] candidates_follow_dictionary(r@, i),
        forall|i: int| 0 <= i < r@.len() ==> #[trigger] candidates_generated(r@, i),
{
    let n = chunks.len();
    let ghost spells = Seq::new(n as nat, |k: int| chunks@[k].spec_spell());
    let mut rev = candidate_lists_from_last(chunks);
    let ghost rev0 = rev@;
    let mut r: Vec<ChunkUnprocessed> = Vec::new();
    let mut head: Option<KeyStrokeChar> = None;
    let mut j: usize = 0;
    assert forall|k: int| 0 <= k < rev@.len() implies #[trigger] rev_list_ok(rev@, k, spells[n - 1 - k]) by {
        assert(rev_list_ok(rev@, k, chunks@[n - 1 - k].spec_spell()));
    }
    while j < n
        invariant
            n == chunks@.len(),
            forall|k: int| 0 <= k < chunks@.len() ==> (#[trigger] chunks@[k]).spec_spell().wf(),
            j <= n,
            rev@.len() == n - j,
            r@.len() == j,
            head == inherited_head(r@, j as int),
            spells == Seq::new(n as nat, |k: int| chunks@[k].spec_spell()),
            forall|k: int| 0 <= k < rev@.len() ==> #[trigger] rev_list_ok(rev@, k, spells[n - 1 - k]),
            rev0.len() == n,
            rev@ == rev0.take(n - j),
            forall|k: int| 0 <= k < r@.len() ==> (#[trigger] r@[k]).spec_candidates() == rev0[n - 1 - k]@,
            head matches Some(k) ==> rev@.len() > 0 && has_starting(rev@.last()@, k),
            forall|k: int| 0 <= k < r@.len() ==> #[trigger] chunk_ok(r@, k, spells[k]),
            forall|k: int| 0 <= k && k + 1 < r@.len() ==> #[trigger] constraints_lead(r@, k),
            j > 0 ==> forall|c: int| 0 <= c < r@[j - 1].spec_candidates().len()
                && (#[trigger] r@[j - 1].spec_candidates()[c]).spec_next_chunk_head_constraint() is Some
                    ==> rev@.len() > 0 && has_starting(rev@.last()@, r@[j - 1].spec_candidates()[c].spec_next_chunk_head_constraint()->0),
        decreases n - j,
    {
        let ghost rb = rev@;
        let candidates = match rev.pop() {
            Some(c) => c,
            None => Vec::new(),
        };
        proof {
            assert(candidates == rb.last());
            assert(rev@ == rb.drop_last());
            assert(rb[rb.len() - 1] == candidates);
            assert(n - 1 - (rb.len() - 1) == j);
            assert(rev_list_ok(rb, rb.len() - 1, spells[j as int]));
            if let Some(k) = head {
                let w = choose|w: int| 0 <= w < candidates@.len() && starts_with(#[trigger] candidates@[w], k);
                assert(meets_head(candidates@[w], head));
            } else {
                assert(meets_head(candidates@[0], head));
            }
        }
        let m = min_candidate_index(&candidates, head);
        let ideal = candidates[m].duplicate();
        let next = ideal.next_chunk_head_constraint();
        let spell = chunks[j].spell().duplicate();
        let ghost r_before = r@;
        let chunk = ChunkUnprocessed::from_parts(spell, candidates, ideal);
        r.push(chunk);
        proof {
            assert(rev@ =~= rev0.take(n - j - 1));
            assert(candidates == rev0[n - 1 - j]);
            assert forall|k: int| 0 <= k < r@.len() implies (#[trigger] r@[k]).spec_candidates() == rev0[n - 1 - k]@ by {
                if k < r_before.len() {
                    assert(r@[k] == r_before[k]);
                }
            }
            assert(r@ == r_before.push(chunk));
            assert(ideal.spec_next_chunk_head_constraint() == candidates@[m as int].spec_next_chunk_head_constraint());
            lemma_forward_step(spells, rb, rev@, r_before, r@, chunk, m as int, j as int, n as int, head);
        }
        head = next;
        j = j + 1;
    }
    proof {
        assert forall|i: int| 0 <= i < r@.len() implies #[trigger] constraints_lead(r@, i) by {
            if i + 1 >= r@.len() {
                assert(chunk_ok(r@, i, spells[i]));
            }
        }
        lemma_chunks_ok_conclude(r@, spells);
        assert forall|i: int| 0 <= i < r@.len() implies #[trigger] chunk_wholes_ok(r@, chunks@, i) by {
            assert(rev_wholes_ok(rev0, n - 1 - i, chunks@, n as int));
            if i + 1 < n {
                assert(r@[i + 1].spec_candidates() == rev0[n - 1 - (i + 1)]@);
            }
        }
        assert forall|i: int| 0 <= i < r@.len() implies #[trigger] candidates_generated(r@, i) by {
            reveal(candidates_generated);
            assert(rev_views_ok(rev0, n - 1 - i, chunks@, n as int));
            assert(r@[i].spec_spell().same_as(chunks@[i].spec_spell()));
            assert(r@[i].spec_candidates() == rev0[n - 1 - i]@);
            if i + 1 < n {
                assert(r@[i + 1].spec_candidates() == rev0[n - 1 - (i + 1)]@);
                assert(r@[i + 1].spec_spell().same_as(chunks@[i + 1].spec_spell()));
            }
        }
        assert forall|i: int| 0 <= i < r@.len() implies #[trigger] candidates_follow_dictionary(r@, i) by {
            assert(chunk_wholes_ok(r@, chunks@, i));
            assert(r@[i].spec_spell().same_as(chunks@[i].spec_spell()));
            if i + 1 < r@.len() {
                assert(r@[i + 1].spec_spell().same_as(chunks@[i + 1].spec_spell()));
            }
        }
    }
    r
}

/// The candidates of the chunk at `i` of `r` are those generated for its spell before the chunk
/// after it, as the candidates of that chunk begin, sorted by key stroke count.
#[verifier::opaque]
pub open spec fn candidates_generated(r: Seq<ChunkUnprocessed>, i: int) -> bool {
    cand_views(r[i].spec_candidates()) == sort_views(
        generated_views(
            r[i].spec_spell(),
            if i + 1 < r.len() {
                Some((r[i + 1].spec_spell() is DisplayableAscii, first_heads(cand_views(r[i + 1].spec_candidates()))))
            } else {
                None
            },
        ),
    )
}

/// The key strokes of the candidates of the chunk at `i` of `r` are those which type its spell
/// before the chunk after it, as the candidates of that chunk begin.
pub open spec fn candidates_follow_dictionary(r: Seq<ChunkUnprocessed>, i: int) -> bool {
    wholes_of(r[i].spec_candidates()) == candidate_wholes(
        r[i].spec_spell(),
        if i + 1 < r.len() {
            Some((r[i + 1].spec_spell() is DisplayableAscii, head_chars(r[i + 1].spec_candidates())))
        } else {
            None
        },
    )
}

/// The key strokes of the candidates of the chunk at `i` are those which type its spell before
/// the chunk after it, as the candidates of that chunk begin.
pub open spec fn chunk_wholes_ok(r: Seq<ChunkUnprocessed>, chunks: Seq<ChunkCandidateUnappended>, i: int) -> bool {
    wholes_of(r[i].spec_candidates()) == candidate_wholes(
        chunks[i].spec_spell(),
        if i + 1 < r.len() {
            Some((chunks[i + 1].spec_spell() is DisplayableAscii, head_chars(r[i + 1].spec_candidates())))
        } else {
            None
        },
    )
}

/// What the chunks built one by one satisfy as a whole.
proof fn lemma_chunks_ok_conclude(r: Seq<ChunkUnprocessed>, spells: Seq<ChunkSpell>)
    requires
        r.len() == spells.len(),
        forall|k: int| 0 <= k < r.len() ==> #[trigger] chunk_ok(r, k, spells[k]),
        forall|k: int| 0 <= k < r.len() ==> #[trigger] constraints_lead(r, k),
    ensures
        forall|i: int| 0 <= i < r.len() ==> (#[trigger] r[i]).wf(),
        forall|i: int| 0 <= i < r.len() ==> (#[trigger] r[i]).spec_spell().same_as(spells[i]),
        forall|i: int| 0 <= i < r.len() ==> sorted_by_count(#[trigger] r[i].spec_candidates()),
        forall|i: int| 0 <= i < r.len() ==> #[trigger] constraints_lead(r, i),
        forall|i: int| 0 <= i < r.len() ==> #[trigger] ideal_is_min(r, i),
        forall|i: int| 0 <= i < r.len() ==> ascii_single((#[trigger] r[i]).spec_candidates(), r[i].spec_spell()),
        forall|i: int| 0 <= i < r.len() ==> spec_min_count((#[trigger] r[i]).spec_candidates()) >= spec_estimate_of(spells[i]),
{
    assert forall|i: int| 0 <= i < r.len() implies spec_min_count((#[trigger] r[i]).spec_candidates()) >= spec_estimate_of(spells[i]) by {
        assert(chunk_ok(r, i, spells[i]));
        crate::chunk::unprocessed::lemma_min_count_bound(r[i].spec_candidates());
        let k = choose|k: int| 0 <= k < r[i].spec_candidates().len() && spec_min_count(r[i].spec_candidates())
            == (#[trigger] r[i].spec_candidates()[k]).spec_whole().len();
        assert(r[i].spec_candidates()[k].spec_whole().len() >= spec_estimate_of(spells[i]));
    }
    assert forall|i: int| 0 <= i < r.len() implies #[trigger] ideal_is_min(r, i) by {
        assert(chunk_ok(r, i, spells[i]));
    }
    assert forall|i: int| 0 <= i < r.len() implies {
        &&& (#[trigger] r[i]).wf()
        &&& r[i].spec_spell().same_as(spells[i])
        &&& sorted_by_count(r[i].spec_candidates())
        &&& ascii_single(r[i].spec_candidates(), r[i].spec_spell())
    } by {
        assert(chunk_ok(r, i, spells[i]));
    }
}

/// One step of assigning ideal candidates from the first chunk on.
proof fn lemma_forward_step(
    spells: Seq<ChunkSpell>,
    rb: Seq<Vec<ChunkKeyStrokeCandidate>>,
    rev: Seq<Vec<ChunkKeyStrokeCandidate>>,
    r_before: Seq<ChunkUnprocessed>,
    r: Seq<ChunkUnprocessed>,
    chunk: ChunkUnprocessed,
    m: int,
    j: int,
    n: int,
    head: Option<KeyStrokeChar>,
)
    requires
        n == spells.len(),
        0 <= j < n,
        rb.len() == n - j,
        rev == rb.drop_last(),
        r == r_before.push(chunk),
        r_before.len() == j,
        forall|k: int| 0 <= k < rb.len() ==> #[trigger] rev_list_ok(rb, k, spells[n - 1 - k]),
        head == inherited_head(r_before, j),
        forall|k: int| 0 <= k < j ==> #[trigger] chunk_ok(r_before, k, spells[k]),
        forall|k: int| 0 <= k && k + 1 < j ==> #[trigger] constraints_lead(r_before, k),
        j > 0 ==> forall|c: int| 0 <= c < r_before[j - 1].spec_candidates().len()
            && (#[trigger] r_before[j - 1].spec_candidates()[c]).spec_next_chunk_head_constraint() is Some
                ==> rb.len() > 0 && has_starting(rb.last()@, r_before[j - 1].spec_candidates()[c].spec_next_chunk_head_constraint()->0),
        chunk.spec_candidates() == rb.last()@,
        chunk.spec_spell().same_as(spells[j]),
        chunk.spec_spell().wf(),
        chunk.spec_ideal().same_as(rb.last()@[m]),
        is_min_candidate_index(rb.last()@, head, m),
    ensures
        forall|k: int| 0 <= k < rev.len() ==> #[trigger] rev_list_ok(rev, k, spells[n - 1 - k]),
        chunk.spec_ideal().spec_next_chunk_head_constraint() is Some ==> rev.len() > 0 && has_starting(
            rev.last()@,
            chunk.spec_ideal().spec_next_chunk_head_constraint()->0,
        ),
        inherited_head(r, j + 1) == chunk.spec_ideal().spec_next_chunk_head_constraint(),
        forall|k: int| 0 <= k <= j ==> #[trigger] chunk_ok(r, k, spells[k]),
        forall|k: int| 0 <= k && k + 1 < j + 1 ==> #[trigger] constraints_lead(r, k),
        forall|c: int| 0 <= c < r[j].spec_candidates().len()
            && (#[trigger] r[j].spec_candidates()[c]).spec_next_chunk_head_constraint() is Some
                ==> rev.len() > 0 && has_starting(rev.last()@, r[j].spec_candidates()[c].spec_next_chunk_head_constraint()->0),
{
    let cands = rb.last()@;
    assert(rb[rb.len() - 1] == rb.last());
    assert(n - 1 - (rb.len() - 1) == j);
    assert(rev_list_ok(rb, rb.len() - 1, spells[j]));
    assert(r[j] == chunk);
    assert forall|k: int| 0 <= k < j implies r[k] == r_before[k] by {}
    assert forall|k: int| 0 <= k <= j implies inherited_head(r, k) == inherited_head(r_before, k) by {
        if k > 0 {
            assert(r[k - 1] == r_before[k - 1]);
        }
    }
    assert(chunk.wf());
    assert(chunk_ok(r, j, spells[j]));
    assert forall|k: int| 0 <= k <= j implies #[trigger] chunk_ok(r, k, spells[k]) by {
        if k < j {
            assert(chunk_ok(r_before, k, spells[k]));
        }
    }
    assert forall|k: int| 0 <= k < rev.len() implies #[trigger] rev_list_ok(rev, k, spells[n - 1 - k]) by {
        assert(rev[k] == rb[k]);
        assert(rev_list_ok(rb, k, spells[n - 1 - k]));
        if k > 0 {
            assert(rev[k - 1] == rb[k - 1]);
        }
    }
    assert(constraints_lead_rev(rb, rb.len() - 1));
    assert forall|c: int| 0 <= c < cands.len() && (#[trigger] cands[c]).spec_next_chunk_head_constraint() is Some implies
        rev.len() > 0 && has_starting(rev.last()@, cands[c].spec_next_chunk_head_constraint()->0) by {
        assert(rb[rb.len() - 1]@[c] == cands[c]);
        assert(rev.last() == rb[rb.len() - 2]);
    }
    assert(chunk.spec_ideal().spec_next_chunk_head_constraint() == cands[m].spec_next_chunk_head_constraint());
    assert forall|k: int| 0 <= k && k + 1 < j + 1 implies #[trigger] constraints_lead(r, k) by {
        if k + 1 < j {
            assert(constraints_lead(r_before, k));
            assert(r[k + 1] == r_before[k + 1]);
        } else {
            assert(r[k] == r_before[k]);
            assert forall|c: int| 0 <= c < r[k].spec_candidates().len()
                && (#[trigger] r[k].spec_candidates()[c]).spec_next_chunk_head_constraint() is Some implies
                k + 1 < r.len() && has_starting(r[k + 1].spec_candidates(), r[k].spec_candidates()[c].spec_next_chunk_head_constraint()->0) by {
                assert(r_before[j - 1].spec_candidates()[c] == r[k].spec_candidates()[c]);
            }
        }
    }
}

/// The properties of the chunk at `k` of assigned chunks.
pub open spec fn chunk_ok(r: Seq<ChunkUnprocessed>, k: int, spell: ChunkSpell) -> bool {
    &&& at_least_estimate(r[k].spec_candidates(), spell)
    &&& r[k].wf()
    &&& r[k].spec_spell().same_as(spell)
    &&& sorted_by_count(r[k].spec_candidates())
    &&& ideal_is_min(r, k)
    &&& ascii_single(r[k].spec_candidates(), r[k].spec_spell())
}

/// Whether the ideal candidate of chunk `i` is one of the candidates of the fewest key strokes
/// that meet the head restriction inherited from the chunk before it.
pub open spec fn ideal_is_min(r: Seq<ChunkUnprocessed>, i: int) -> bool {
    exists|m: int|
        is_min_candidate_index(r[i].spec_candidates(), inherited_head(r, i), m)
            && r[i].spec_ideal().same_as(r[i].spec_candidates()[m])
}

/// Whether the chunk of spell `spell` with candidates `c` has one candidate typing its ASCII
/// character, when the spell is ASCII.
pub open spec fn ascii_single(c: Seq<ChunkKeyStrokeCandidate>, spell: ChunkSpell) -> bool {
    spell is DisplayableAscii ==> {
        &&& c.len() == 1
        &&& c[0].spec_whole() == spell.spec_chars()
        &&& c[0].spec_next_chunk_head_constraint() is None
        &&& c[0].spec_delayed() is None
    }
}

/// In the candidate lists from the last chunk back, every constraint of the list at `k` names
/// a key stroke with which some candidate of the list before it (the next chunk) begins.
pub open spec fn constraints_lead_rev(rev: Seq<Vec<ChunkKeyStrokeCandidate>>, k: int) -> bool {
    forall|j: int|
        0 <= j < rev[k]@.len() && (#[trigger] rev[k]@[j]).spec_next_chunk_head_constraint() is Some
            ==> k > 0 && has_starting(rev[k - 1]@, rev[k]@[j].spec_next_chunk_head_constraint()->0)
}

} // verus!
