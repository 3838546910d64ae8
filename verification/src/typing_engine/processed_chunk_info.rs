//! The chunks of a typing session: those confirmed, the one being typed and those to come,
//! and the statistical events which typing them emits.
use vstd::prelude::*;

use crate::chunk::confirmed::ChunkConfirmed;
use crate::chunk::inflight::{element_spell, spell_cursor_of, typed_correctly, typed_wrongly, ChunkInflight, KeyStrokeResult};
use crate::chunk::key_stroke_candidate::{is_min_candidate_index, meets_head, ChunkKeyStrokeCandidate};
use crate::chunk::unprocessed::{split_by_head, ChunkUnprocessed};
use crate::key_stroke::{ActualKeyStroke, KeyStrokeChar, KeyStrokeHitMiss};
use crate::primitives::Duration;
use crate::chunk::key_stroke_candidate::KeyStrokeElementCount;
use crate::statistics::lap_statistics::{sat_sub, valid_chunk_counts, chunk_added, LapStatiticsBuilder};
use crate::statistics::LapRequest;
use crate::statistics::statistics_counter::sat_add;
use crate::statistics::multi_target_position_convert::{counts_fit_spell, has_positive_counts};
use crate::statistics::statistical_event::{
    ChunkAddedContext, ChunkConfirmedContext, IdealKeyStrokeDeemedFinishedContext,
    InflightSpellSnapshottedContext, KeyStrokeCorrectContext, KeyStrokeSnapshottedContext,
    StatisticalEvent,
};

verus! {

/// The chunks of a typing session.
#[derive(Debug, Clone, PartialEq, Eq, Hash)]
pub struct ProcessedChunkInfo {
    unprocessed_chunks: Vec<ChunkUnprocessed>,
    inflight_chunk: Option<ChunkInflight>,
    confirmed_chunks: Vec<ChunkConfirmed>,
    elapsed_time_of_last_correct_key_stroke: Duration,
}

/// `e` is the `ChunkAdded` event of the chunk `c`.
pub open spec fn is_chunk_added_of(e: StatisticalEvent, c: ChunkUnprocessed) -> bool {
    &&& e is ChunkAdded
    &&& e->ChunkAdded_0.spec_spell().same_as(c.spec_spell())
    &&& e->ChunkAdded_0.spec_ideal_count() == c.spec_ideal().spec_key_stroke().spec_element_count()
}

/// The spell characters of the chunks `s`, one chunk after the other.
pub open spec fn unprocessed_spells(s: Seq<ChunkUnprocessed>) -> Seq<char>
    decreases s.len(),
{
    if s.len() == 0 {
        Seq::empty()
    } else {
        unprocessed_spells(s.drop_last()) + s.last().spec_spell().spec_chars()
    }
}

/// The spell characters of the confirmed chunks `s`, one chunk after the other.
pub open spec fn confirmed_spells(s: Seq<ChunkConfirmed>) -> Seq<char>
    decreases s.len(),
{
    if s.len() == 0 {
        Seq::empty()
    } else {
        confirmed_spells(s.drop_last()) + s.last().spec_spell().spec_chars()
    }
}

/// The spell characters of the confirmed chunks, the chunk being typed and the chunks to come.
pub open spec fn spells_with(confirmed: Seq<ChunkConfirmed>, inflight: Option<ChunkInflight>, unprocessed: Seq<ChunkUnprocessed>) -> Seq<char> {
    confirmed_spells(confirmed) + match inflight {
        Some(c) => c.spec_spell().spec_chars(),
        None => Seq::empty(),
    } + unprocessed_spells(unprocessed)
}

/// The spells of chunks one after the other are those of their parts.
proof fn lemma_unprocessed_spells_append(a: Seq<ChunkUnprocessed>, b: Seq<ChunkUnprocessed>)
    ensures
        unprocessed_spells(a + b) == unprocessed_spells(a) + unprocessed_spells(b),
    decreases b.len(),
{
    if b.len() == 0 {
        assert(a + b == a);
    } else {
        lemma_unprocessed_spells_append(a, b.drop_last());
        assert((a + b).drop_last() == a + b.drop_last());
        assert((a + b).last() == b.last());
    }
}

/// The spells of chunks are those of the first one, then those of the others.
proof fn lemma_unprocessed_spells_first(s: Seq<ChunkUnprocessed>)
    requires
        s.len() > 0,
    ensures
        unprocessed_spells(s) == s[0].spec_spell().spec_chars() + unprocessed_spells(s.drop_first()),
{
    lemma_unprocessed_spells_append(seq![s[0]], s.drop_first());
    assert(seq![s[0]] + s.drop_first() == s);
    assert(seq![s[0]].drop_last() == Seq::<ChunkUnprocessed>::empty());
    assert(seq![s[0]].last() == s[0]);
    assert(unprocessed_spells(Seq::<ChunkUnprocessed>::empty()) == Seq::<char>::empty());
    assert(unprocessed_spells(seq![s[0]]) == Seq::<char>::empty() + s[0].spec_spell().spec_chars());
    assert(Seq::<char>::empty() + s[0].spec_spell().spec_chars() == s[0].spec_spell().spec_chars());
}

/// Returns the `ChunkAdded` event of every chunk, in order.
fn chunk_added_events(chunks: &Vec<ChunkUnprocessed>) -> (r: Vec<StatisticalEvent>)
    ensures
        r@.len() == chunks@.len(),
        forall|i: int| 0 <= i < r@.len() ==> is_chunk_added_of(#[trigger] r@[i], chunks@[i]),
{
    let mut r: Vec<StatisticalEvent> = Vec::new();
    let mut i: usize = 0;
    while i < chunks.len()
        invariant
            i <= chunks@.len(),
            r@.len() == i,
            forall|k: int| 0 <= k < r@.len() ==> is_chunk_added_of(#[trigger] r@[k], chunks@[k]),
        decreases chunks@.len() - i,
    {
        let chunk = &chunks[i];
        let context = ChunkAddedContext::new(
            chunk.spell().duplicate(),
            chunk.ideal_key_stroke_candidate().construct_key_stroke_element_count(),
        );
        r.push(StatisticalEvent::ChunkAdded(context));
        i = i + 1;
    }
    r
}

/// The `ChunkConfirmed` event of a confirmed chunk.
fn chunk_confirmed_event(chunk: &ChunkConfirmed) -> (r: StatisticalEvent)
    requires
        chunk.wf(),
    ensures
        r matches StatisticalEvent::ChunkConfirmed(c) && c.spec_ideal_key_stroke_count() == chunk.spec_ideal().spec_whole().len()
            && c.spec_wrong_counts().len() == crate::chunk::has_actual_key_strokes::wrong_counts(chunk.spec_actual()).len(),
{
    StatisticalEvent::ChunkConfirmed(
        ChunkConfirmedContext::new(
            chunk.ideal_key_stroke_candidate().calc_key_stroke_count(),
            chunk.wrong_key_stroke_count_of_key_stroke_index(),
        ),
    )
}

/// Whether some candidate meets the head restriction `head`.
fn some_meets_head(candidates: &[ChunkKeyStrokeCandidate], head: Option<KeyStrokeChar>) -> (r: bool)
    requires
        crate::chunk::key_stroke_candidate::all_wf(candidates@),
    ensures
        r == exists|j: int| 0 <= j < candidates@.len() && meets_head(#[trigger] candidates@[j], head),
{
    let mut i: usize = 0;
    while i < candidates.len()
        invariant
            crate::chunk::key_stroke_candidate::all_wf(candidates@),
            i <= candidates@.len(),
            forall|j: int| 0 <= j < i ==> !meets_head(#[trigger] candidates@[j], head),
        decreases candidates@.len() - i,
    {
        let c = &candidates[i];
        let meets = match head {
            None => true,
            Some(k) => c.calc_key_stroke_count() > 0 && c.key_stroke_char_at_position(0).same_as(&k),
        };
        if meets {
            return true;
        }
        i = i + 1;
    }
    false
}

/// The key strokes of actual key strokes.
pub fn key_strokes_of(actual: &Vec<ActualKeyStroke>) -> (r: Vec<KeyStrokeChar>)
    ensures
        r@.len() == actual@.len(),
        forall|i: int| 0 <= i < r@.len() ==> r@[i] == (#[trigger] actual@[i]).spec_key_stroke(),
{
    let mut r: Vec<KeyStrokeChar> = Vec::new();
    let mut i: usize = 0;
    while i < actual.len()
        invariant
            i <= actual@.len(),
            r@.len() == i,
            forall|k: int| 0 <= k < r@.len() ==> r@[k] == (#[trigger] actual@[k]).spec_key_stroke(),
        decreases actual@.len() - i,
    {
        r.push(actual[i].key_stroke());
        i = i + 1;
    }
    r
}

impl ProcessedChunkInfo {
    pub closed spec fn spec_unprocessed(self) -> Seq<ChunkUnprocessed> {
        self.unprocessed_chunks@
    }

    pub closed spec fn spec_inflight(self) -> Option<ChunkInflight> {
        self.inflight_chunk
    }

    pub closed spec fn spec_confirmed(self) -> Seq<ChunkConfirmed> {
        self.confirmed_chunks@
    }

    pub closed spec fn spec_last_correct_time(self) -> Duration {
        self.elapsed_time_of_last_correct_key_stroke
    }

    /// Every chunk is well formed.
    pub open spec fn parts_wf(self) -> bool {
        &&& forall|i: int| 0 <= i < self.spec_unprocessed().len() ==> (#[trigger] self.spec_unprocessed()[i]).wf()
        &&& forall|i: int| 0 <= i < self.spec_confirmed().len() ==> (#[trigger] self.spec_confirmed()[i]).wf()
        &&& self.spec_inflight() matches Some(c) ==> c.wf()
    }

    /// Every chunk is well formed, and the chunk being typed is not confirmed yet.
    pub open spec fn wf(self) -> bool {
        &&& self.parts_wf()
        &&& self.spec_inflight() matches Some(c) ==> !c.spec_is_confirmed()
    }

    /// The spell characters of all the chunks, in order.
    pub open spec fn spec_all_spells(self) -> Seq<char> {
        spells_with(self.spec_confirmed(), self.spec_inflight(), self.spec_unprocessed())
    }

    /// The number of chunks: confirmed, being typed and to come.
    pub open spec fn spec_chunk_count(self) -> int {
        self.spec_confirmed().len() + (if self.spec_inflight() is Some {
            1int
        } else {
            0
        }) + self.spec_unprocessed().len()
    }

    /// The head restriction that the chunk being typed leaves to the next one: that of its
    /// candidate in effect.
    pub open spec fn spec_head_left(self) -> Option<KeyStrokeChar> {
        match self.spec_inflight() {
            Some(c) => c.spec_effective().spec_next_chunk_head_constraint(),
            None => None,
        }
    }

    /// Typing is finished: no chunk is being typed and none is to come.
    pub open spec fn spec_is_finished(self) -> bool {
        self.spec_unprocessed().len() == 0 && self.spec_inflight() is None
    }

    /// The key strokes left to type, as they would ideally be typed: those after the cursor
    /// in the candidate of the chunk being typed (none while it waits for the next chunk to
    /// confirm it), then those of the chunks to come.
    pub open spec fn spec_key_strokes_left(self) -> Seq<char> {
        match self.spec_inflight() {
            Some(c) => {
                let eff = c.spec_effective();
                let here = if c.spec_delayed_index() is Some {
                    Seq::<char>::empty()
                } else {
                    eff.spec_whole().subrange(c.spec_cursor(), eff.spec_whole().len() as int)
                };
                here + ideal_key_strokes_after(self.spec_unprocessed(), eff.spec_next_chunk_head_constraint())
            },
            None => ideal_key_strokes_after(self.spec_unprocessed(), None),
        }
    }

    /// The chunks of a session, none of which is being typed yet, and their `ChunkAdded`
    /// events.
    pub fn new(chunks: Vec<ChunkUnprocessed>) -> (r: (Self, Vec<StatisticalEvent>))
        ensures
            r.0.spec_unprocessed() == chunks@,
            r.0.spec_inflight() is None,
            r.0.spec_confirmed().len() == 0,
            r.0.spec_last_correct_time().spec_nanos() == 0,
            r.0.spec_all_spells() == unprocessed_spells(chunks@),
            r.0.spec_chunk_count() == chunks@.len(),
            r.1@.len() == chunks@.len(),
            forall|i: int| 0 <= i < r.1@.len() ==> is_chunk_added_of(#[trigger] r.1@[i], chunks@[i]),
    {
        let events = chunk_added_events(&chunks);
        (
            ProcessedChunkInfo {
                unprocessed_chunks: chunks,
                inflight_chunk: None,
                confirmed_chunks: Vec::new(),
                elapsed_time_of_last_correct_key_stroke: Duration::zero(),
            },
            events,
        )
    }

    /// The chunks of a session in the given state.
    pub fn from_parts(
        unprocessed_chunks: Vec<ChunkUnprocessed>,
        inflight_chunk: Option<ChunkInflight>,
        confirmed_chunks: Vec<ChunkConfirmed>,
        elapsed_time_of_last_correct_key_stroke: Duration,
    ) -> (r: Self)
        ensures
            r.spec_unprocessed() == unprocessed_chunks@,
            r.spec_inflight() == inflight_chunk,
            r.spec_confirmed() == confirmed_chunks@,
            r.spec_last_correct_time() == elapsed_time_of_last_correct_key_stroke,
    {
        ProcessedChunkInfo {
            unprocessed_chunks,
            inflight_chunk,
            confirmed_chunks,
            elapsed_time_of_last_correct_key_stroke,
        }
    }

    /// Returns whether typing is finished.
    pub fn is_finished(&self) -> (r: bool)
        ensures
            r == self.spec_is_finished(),
    {
        self.unprocessed_chunks.len() == 0 && self.inflight_chunk.is_none()
    }

    /// Returns the time of the last correct key stroke.
    pub fn last_correct_time(&self) -> (r: Duration)
        ensures
            r == self.spec_last_correct_time(),
    {
        self.elapsed_time_of_last_correct_key_stroke
    }

    /// Returns whether a chunk is being typed.
    pub fn has_inflight_chunk(&self) -> (r: bool)
        ensures
            r == self.spec_inflight() is Some,
    {
        self.inflight_chunk.is_some()
    }

    /// Returns the confirmed chunks.
    pub fn confirmed_chunks(&self) -> (r: &Vec<ChunkConfirmed>)
        ensures
            r@ == self.spec_confirmed(),
    {
        &self.confirmed_chunks
    }

    /// Returns the chunks to come.
    pub fn unprocessed_chunks(&self) -> (r: &Vec<ChunkUnprocessed>)
        ensures
            r@ == self.spec_unprocessed(),
    {
        &self.unprocessed_chunks
    }

    /// Returns the chunk being typed, if any.
    pub fn inflight_chunk(&self) -> (r: &Option<ChunkInflight>)
        ensures
            *r == self.spec_inflight(),
    {
        &self.inflight_chunk
    }

    /// Appends chunks to those to come and returns their `ChunkAdded` events. When typing is
    /// finished, the first of them becomes the chunk being typed.
    pub fn append_chunks(&mut self, chunks: Vec<ChunkUnprocessed>) -> (r: Vec<StatisticalEvent>)
        requires
            old(self).spec_is_finished() ==> chunks@.len() > 0,
            forall|i: int| 0 <= i < chunks@.len() ==> (#[trigger] chunks@[i]).wf(),
        ensures
            !old(self).spec_is_finished() ==> final(self).spec_unprocessed() == old(self).spec_unprocessed() + chunks@,
            !old(self).spec_is_finished() ==> final(self).spec_inflight() == old(self).spec_inflight(),
            old(self).spec_is_finished() ==> ({
                let first = chunks@[0];
                &&& final(self).spec_unprocessed() == chunks@.drop_first()
                &&& final(self).spec_inflight() matches Some(c) && {
                    &&& c.wf()
                    &&& !c.spec_is_confirmed()
                    &&& c.spec_spell() == first.spec_spell()
                    &&& c.spec_candidates() == first.spec_candidates()
                    &&& c.spec_inactive().len() == 0
                    &&& c.spec_ideal() == first.spec_ideal()
                    &&& c.spec_cursor() == 0
                    &&& c.spec_actual().len() == 0
                    &&& c.spec_pending().len() == 0
                }
            }),
            final(self).spec_confirmed() == old(self).spec_confirmed(),
            final(self).spec_last_correct_time() == old(self).spec_last_correct_time(),
            final(self).spec_all_spells() == old(self).spec_all_spells() + unprocessed_spells(chunks@),
            final(self).spec_chunk_count() == old(self).spec_chunk_count() + chunks@.len(),
            r@.len() == chunks@.len(),
            forall|i: int| 0 <= i < r@.len() ==> is_chunk_added_of(#[trigger] r@[i], chunks@[i]),
    {
        let events = chunk_added_events(&chunks);
        let ghost added = chunks@;
        let mut chunks = chunks;
        if self.unprocessed_chunks.len() == 0 && self.inflight_chunk.is_none() {
            let first = chunks.remove(0);
            proof {
                assert(chunks@ == added.drop_first());
                lemma_unprocessed_spells_first(added);
                assert(first.wf());
                assert(meets_head(first.spec_candidates()[0], None));
                crate::chunk::unprocessed::lemma_split_by_no_head(first.spec_candidates());
                crate::chunk::unprocessed::lemma_split_by_head(first.spec_candidates(), None, false);
            }
            let inflight = first.into_inflight(None);
            proof {
                assert(inflight.spec_candidates()[0].wf());
                assert(inflight.spec_candidates()[0].spec_whole().len() > 0);
                assert(!inflight.spec_is_confirmed());
                if inflight.spec_inactive().len() > 0 {
                    assert(meets_head(inflight.spec_inactive()[0], None));
                }
            }
            self.inflight_chunk = Some(inflight);
            self.unprocessed_chunks = chunks;
            proof {
                assert(old(self).spec_unprocessed() =~= Seq::<ChunkUnprocessed>::empty());
                assert(unprocessed_spells(Seq::<ChunkUnprocessed>::empty()) == Seq::<char>::empty());
                assert(self.spec_all_spells() =~= old(self).spec_all_spells() + unprocessed_spells(added));
            }
        } else {
            self.unprocessed_chunks.append(&mut chunks);
            proof {
                lemma_unprocessed_spells_append(old(self).spec_unprocessed(), added);
            }
        }
        events
    }

    /// Confirms the chunk being typed, if any, and starts typing the next chunk, restricted to
    /// the candidates beginning with the key stroke the confirmed candidate requires. Returns
    /// the `ChunkConfirmed` event of the confirmed chunk.
    pub fn move_next_chunk(&mut self) -> (r: Option<StatisticalEvent>)
        requires
            old(self).parts_wf(),
            old(self).spec_inflight() matches Some(c) ==> c.spec_is_confirmed(),
        ensures
            final(self).wf(),
            r is Some == old(self).spec_inflight() is Some,
            r matches Some(e) ==> e is ChunkConfirmed,
            final(self).spec_confirmed().len() == old(self).spec_confirmed().len() + if old(self).spec_inflight() is Some { 1int } else { 0 },
            old(self).spec_unprocessed().len() > 0 ==> final(self).spec_inflight() is Some && final(self).spec_unprocessed()
                == old(self).spec_unprocessed().drop_first(),
            old(self).spec_unprocessed().len() == 0 ==> final(self).spec_inflight() is None && final(self).spec_unprocessed()
                == old(self).spec_unprocessed(),
            old(self).spec_unprocessed().len() > 0 ==> ({
                let first = old(self).spec_unprocessed()[0];
                let h = usable_head(first, old(self).spec_head_left());
                &&& final(self).spec_inflight() matches Some(c) && {
                    &&& c.spec_spell() == first.spec_spell()
                    &&& c.spec_candidates() == split_by_head(first.spec_candidates(), h, true)
                    &&& c.spec_inactive() == split_by_head(first.spec_candidates(), h, false)
                    &&& c.spec_ideal() == first.spec_ideal()
                    &&& c.spec_cursor() == 0
                    &&& c.spec_actual().len() == 0
                    &&& c.spec_pending().len() == 0
                }
            }),
            old(self).spec_inflight() matches Some(c) ==> ({
                let k = final(self).spec_confirmed().last();
                &&& final(self).spec_confirmed().drop_last() == old(self).spec_confirmed()
                &&& k.spec_spell() == c.spec_spell()
                &&& k.spec_confirmed() == c.spec_candidates()[0]
                &&& k.spec_inactive() == c.spec_inactive()
                &&& k.spec_ideal() == c.spec_ideal()
                &&& k.spec_actual() == c.spec_actual()
            }),
            old(self).spec_inflight() is None ==> final(self).spec_confirmed() == old(self).spec_confirmed(),
            final(self).spec_last_correct_time() == old(self).spec_last_correct_time(),
            final(self).spec_all_spells() == old(self).spec_all_spells(),
            final(self).spec_chunk_count() == old(self).spec_chunk_count(),
    {
        let mut head: Option<KeyStrokeChar> = None;
        let mut event: Option<StatisticalEvent> = None;
        let mut taken: Option<ChunkInflight> = None;
        std::mem::swap(&mut taken, &mut self.inflight_chunk);
        if let Some(inflight) = taken {
            let effective_head = inflight.effective_candidate().next_chunk_head_constraint();
            match inflight.try_into_confirmed() {
                Ok(confirmed) => {
                    assert(confirmed.wf());
                    head = effective_head;
                    event = Some(chunk_confirmed_event(&confirmed));
                    let ghost cb = self.spec_confirmed();
                    self.confirmed_chunks.push(confirmed);
                    proof {
                        assert(self.spec_confirmed().drop_last() == cb);
                        assert(confirmed_spells(self.spec_confirmed()) == confirmed_spells(cb) + confirmed.spec_spell().spec_chars());
                        assert forall|i: int| 0 <= i < self.spec_confirmed().len() implies (#[trigger] self.spec_confirmed()[i]).wf() by {
                            if i < cb.len() {
                                assert(self.spec_confirmed()[i] == cb[i]);
                            }
                        }
                    }
                },
                Err(_) => {},
            }
        }
        if self.unprocessed_chunks.len() > 0 {
            let next = self.unprocessed_chunks.remove(0);
            let restriction = if some_meets_head(next.key_stroke_candidates(), head) {
                head
            } else {
                None
            };
            proof {
                if restriction is None {
                    assert(meets_head(next.spec_candidates()[0], None));
                }
            }
            proof {
                lemma_unprocessed_spells_first(old(self).spec_unprocessed());
                assert(old(self).spec_unprocessed().drop_first() == self.spec_unprocessed());
            }
            let inflight = next.into_inflight(restriction);
            proof {
                assert(inflight.spec_candidates()[0].wf());
                assert(inflight.spec_candidates()[0].spec_whole().len() > 0);
                assert(!inflight.spec_is_confirmed());
                assert(inflight.wf());
            }
            self.inflight_chunk = Some(inflight);
        }
        proof {
            assert forall|i: int| 0 <= i < self.spec_unprocessed().len() implies (#[trigger] self.spec_unprocessed()[i]).wf() by {
                assert(self.spec_unprocessed()[i] == old(self).spec_unprocessed()[i + (old(self).spec_unprocessed().len() - self.spec_unprocessed().len())]);
            }
            let i0: Seq<char> = match old(self).spec_inflight() {
                Some(c) => c.spec_spell().spec_chars(),
                None => Seq::empty(),
            };
            let i1: Seq<char> = match self.spec_inflight() {
                Some(c) => c.spec_spell().spec_chars(),
                None => Seq::empty(),
            };
            assert(confirmed_spells(self.spec_confirmed()) == confirmed_spells(old(self).spec_confirmed()) + i0);
            assert(i1 + unprocessed_spells(self.spec_unprocessed()) == unprocessed_spells(old(self).spec_unprocessed()));
            assert(self.spec_all_spells() =~= confirmed_spells(old(self).spec_confirmed()) + i0 + unprocessed_spells(old(self).spec_unprocessed()));
        }
        event
    }
}

impl ProcessedChunkInfo {
    /// The number of chunks being typed or to come.
    pub open spec fn spec_remaining(self) -> int {
        self.spec_unprocessed().len() + if self.spec_inflight() is Some { 1int } else { 0 }
    }

    /// Puts a chunk back as the one being typed, and confirms it when it is confirmed.
    fn settle_inflight(&mut self, inflight: ChunkInflight, events: &mut Vec<StatisticalEvent>)
        requires
            old(self).wf(),
            old(self).spec_inflight() is None,
            inflight.wf(),
        ensures
            final(self).wf(),
            final(self).spec_remaining() <= old(self).spec_remaining() + 1,
            inflight.spec_is_confirmed() ==> final(self).spec_remaining() == old(self).spec_remaining(),
            final(self).spec_last_correct_time() == old(self).spec_last_correct_time(),
            final(events)@.len() >= old(events)@.len(),
            final(events)@.subrange(0, old(events)@.len() as int) == old(events)@,
            forall|i: int| old(events)@.len() <= i < final(events)@.len() ==> #[trigger] is_typing_event(final(events)@[i]),
            final(self).spec_all_spells() == spells_with(old(self).spec_confirmed(), Some(inflight), old(self).spec_unprocessed()),
            final(self).spec_chunk_count() == old(self).spec_confirmed().len() + 1 + old(self).spec_unprocessed().len(),
            settled(*final(self), old(self).spec_confirmed(), inflight, old(self).spec_unprocessed()),
    {
        let confirmed = inflight.is_confirmed();
        self.inflight_chunk = Some(inflight);
        assert(self.spec_unprocessed() == old(self).spec_unprocessed());
        assert(self.spec_confirmed() == old(self).spec_confirmed());
        assert(self.parts_wf());
        if confirmed {
            let event = self.move_next_chunk();
            match event {
                Some(e) => events.push(e),
                None => {},
            }
        }
    }

    /// Types one key stroke for the chunk being typed. Returns whether it is correct, and the
    /// key strokes to hand to the next chunk when it confirms a candidate which waited for
    /// the next chunk.
    fn stroke_key_once(
        &mut self,
        key_stroke: KeyStrokeChar,
        elapsed_time: Duration,
        events: &mut Vec<StatisticalEvent>,
    ) -> (r: (bool, Vec<ActualKeyStroke>))
        requires
            old(self).wf(),
            old(self).spec_inflight() is Some,
        ensures
            final(self).wf(),
            r.0 == (old(self).spec_inflight()->0.spec_confirms_delayed(key_stroke) || old(self).spec_inflight()->0.spec_hits(
                key_stroke,
            )),
            final(self).spec_remaining() <= old(self).spec_remaining(),
            r.1@.len() > 0 ==> final(self).spec_remaining() < old(self).spec_remaining(),
            !r.0 ==> {
                &&& final(events)@ == old(events)@
                &&& r.1@.len() == 0
                &&& final(self).spec_last_correct_time() == old(self).spec_last_correct_time()
                &&& final(self).spec_unprocessed() == old(self).spec_unprocessed()
                &&& final(self).spec_confirmed() == old(self).spec_confirmed()
            },
            r.0 ==> final(events)@.len() >= old(events)@.len() && final(events)@.subrange(0, old(events)@.len() as int)
                == old(events)@,
            final(events)@.len() >= old(events)@.len(),
            final(events)@.subrange(0, old(events)@.len() as int) == old(events)@,
            forall|i: int| old(events)@.len() <= i < final(events)@.len() ==> #[trigger] is_typing_event(final(events)@[i]),
            final(self).spec_all_spells() == old(self).spec_all_spells(),
            final(self).spec_chunk_count() == old(self).spec_chunk_count(),
            stroke_step(*final(self), *old(self), key_stroke, elapsed_time),
            !old(self).spec_inflight()->0.spec_confirms_delayed(key_stroke) ==> r.1@.len() == 0,
            r.0 && !old(self).spec_inflight()->0.spec_confirms_delayed(key_stroke) ==> {
                &&& final(events)@.len() > old(events)@.len()
                &&& final(events)@[old(events)@.len() as int] matches StatisticalEvent::KeyStrokeCorrect(c)
                &&& c.spec_key_stroke() == key_stroke
                &&& c.spec_required_time().spec_nanos() == sat_sub(elapsed_time.spec_nanos(), old(self).spec_last_correct_time().spec_nanos())
                &&& final(self).spec_last_correct_time() == elapsed_time
            },
    {
        let mut taken: Option<ChunkInflight> = None;
        std::mem::swap(&mut taken, &mut self.inflight_chunk);
        let mut inflight = match taken {
            Some(c) => c,
            None => {
                return (false, Vec::new());
            },
        };
        assert(self.spec_unprocessed() == old(self).spec_unprocessed());
        assert(self.spec_confirmed() == old(self).spec_confirmed());
        assert(self.wf());
        let result = inflight.stroke_key(key_stroke, elapsed_time);
        match result {
            KeyStrokeResult::Correct(correct, wrong) => {
                let ghost ev0 = events@;
                let required_time = elapsed_time.saturating_sub(&self.elapsed_time_of_last_correct_key_stroke);
                let event = StatisticalEvent::KeyStrokeCorrect(
                    KeyStrokeCorrectContext::new(key_stroke, required_time, key_strokes_of(&wrong)),
                );
                let ghost e = event;
                events.push(event);
                self.elapsed_time_of_last_correct_key_stroke = elapsed_time;
                assert(self.spec_unprocessed() == old(self).spec_unprocessed());
                assert(self.spec_confirmed() == old(self).spec_confirmed());
                let (finished, _) = correct.into_parts();
                match finished {
                    Some(context) => events.push(StatisticalEvent::SpellFinished(context)),
                    None => {},
                }
                let ghost ev1 = events@;
                assert(ev1[ev0.len() as int] == e);
                assert(ev1.subrange(0, ev0.len() as int) == ev0);
                assert(forall|i: int| ev0.len() <= i < ev1.len() ==> #[trigger] is_typing_event(ev1[i]));
                self.settle_inflight(inflight, events);
                proof {
                    assert(events@.subrange(0, ev1.len() as int)[ev0.len() as int] == events@[ev0.len() as int]);
                    assert(events@.subrange(0, ev0.len() as int) =~= ev1.subrange(0, ev0.len() as int));
                    assert forall|i: int| ev0.len() <= i < events@.len() implies #[trigger] is_typing_event(events@[i]) by {
                        if i < ev1.len() {
                            assert(events@.subrange(0, ev1.len() as int)[i] == events@[i]);
                        }
                    }
                }
                (true, Vec::new())
            },
            KeyStrokeResult::ConfirmDelayed(correct) => {
                let ghost ev0 = events@;
                let (finished, confirmation) = correct.into_parts();
                match finished {
                    Some(context) => events.push(StatisticalEvent::SpellFinished(context)),
                    None => {},
                }
                let ghost ev1 = events@;
                assert(ev1.subrange(0, ev0.len() as int) == ev0);
                assert(forall|i: int| ev0.len() <= i < ev1.len() ==> #[trigger] is_typing_event(ev1[i]));
                self.settle_inflight(inflight, events);
                proof {
                    assert(events@.subrange(0, ev0.len() as int) =~= ev1.subrange(0, ev0.len() as int));
                    assert forall|i: int| ev0.len() <= i < events@.len() implies #[trigger] is_typing_event(events@[i]) by {
                        if i < ev1.len() {
                            assert(events@.subrange(0, ev1.len() as int)[i] == events@[i]);
                        }
                    }
                }
                let pending = match confirmation {
                    Some(p) => p,
                    None => Vec::new(),
                };
                (true, pending)
            },
            KeyStrokeResult::Wrong => {
                self.inflight_chunk = Some(inflight);
                (false, Vec::new())
            },
        }
    }

    /// Types a key stroke at `elapsed_time` and returns whether it is correct with the
    /// statistical events it emits. When it confirms a candidate of the chunk being typed
    /// which waited for the next chunk, the key strokes held back are typed for the next
    /// chunk in turn.
    pub fn stroke_key(&mut self, key_stroke: KeyStrokeChar, elapsed_time: Duration) -> (r: (KeyStrokeHitMiss, Vec<StatisticalEvent>))
        requires
            old(self).wf(),
            old(self).spec_inflight() is Some,
        ensures
            final(self).wf(),
            (r.0 == KeyStrokeHitMiss::Correct) == (old(self).spec_inflight()->0.spec_confirms_delayed(key_stroke)
                || old(self).spec_inflight()->0.spec_hits(key_stroke)),
            final(self).spec_remaining() <= old(self).spec_remaining(),
            final(self).spec_all_spells() == old(self).spec_all_spells(),
            final(self).spec_chunk_count() == old(self).spec_chunk_count(),
            forall|i: int| 0 <= i < r.1@.len() ==> #[trigger] is_typing_event(r.1@[i]),
            stroke_step(*final(self), *old(self), key_stroke, elapsed_time),
            r.0 == KeyStrokeHitMiss::Wrong ==> {
                &&& r.1@.len() == 0
                &&& final(self).spec_last_correct_time() == old(self).spec_last_correct_time()
                &&& final(self).spec_unprocessed() == old(self).spec_unprocessed()
                &&& final(self).spec_confirmed() == old(self).spec_confirmed()
            },
            r.0 == KeyStrokeHitMiss::Correct && !old(self).spec_inflight()->0.spec_confirms_delayed(key_stroke) ==> {
                &&& r.1@.len() > 0
                &&& r.1@[0] matches StatisticalEvent::KeyStrokeCorrect(c)
                &&& c.spec_key_stroke() == key_stroke
                &&& c.spec_required_time().spec_nanos() == sat_sub(elapsed_time.spec_nanos(), old(self).spec_last_correct_time().spec_nanos())
            },
    {
        let mut events: Vec<StatisticalEvent> = Vec::new();
        let (correct, pending) = self.stroke_key_once(key_stroke, elapsed_time, &mut events);
        let ghost after_first = self.spec_remaining();
        let ghost first_events = events@;
        let ghost after_wrong = *self;
        let mut queue = pending;
        while queue.len() > 0
            invariant
                !old(self).spec_inflight()->0.spec_confirms_delayed(key_stroke) ==> queue@.len() == 0 && *self == after_wrong,
                stroke_step(after_wrong, *old(self), key_stroke, elapsed_time),
                self.wf(),
                self.spec_remaining() <= after_first,
                events@.len() >= first_events.len(),
                events@.subrange(0, first_events.len() as int) == first_events,
                forall|i: int| 0 <= i < events@.len() ==> #[trigger] is_typing_event(events@[i]),
                self.spec_all_spells() == old(self).spec_all_spells(),
                self.spec_chunk_count() == old(self).spec_chunk_count(),
                !correct ==> queue@.len() == 0,
                !correct ==> {
                    &&& events@ == first_events
                    &&& self.spec_last_correct_time() == after_wrong.spec_last_correct_time()
                    &&& self.spec_unprocessed() == after_wrong.spec_unprocessed()
                    &&& self.spec_confirmed() == after_wrong.spec_confirmed()
                },
            decreases self.spec_remaining(), queue@.len(),
        {
            let next = queue.remove(0);
            if self.inflight_chunk.is_some() {
                let ghost before = events@;
                let (_, more) = self.stroke_key_once(next.key_stroke(), next.elapsed_time(), &mut events);
                proof {
                    assert forall|i: int| 0 <= i < events@.len() implies #[trigger] is_typing_event(events@[i]) by {
                        if i < before.len() {
                            assert(events@.subrange(0, before.len() as int)[i] == events@[i]);
                        }
                    }
                    assert(events@.subrange(0, first_events.len() as int) =~= before.subrange(0, first_events.len() as int)) by {
                        assert forall|i: int| 0 <= i < first_events.len() implies events@[i] == before[i] by {
                            assert(events@.subrange(0, before.len() as int)[i] == events@[i]);
                        }
                    }
                }
                if more.len() > 0 {
                    let mut more = more;
                    more.append(&mut queue);
                    queue = more;
                }
            } else {
                queue = Vec::new();
            }
        }
        let hit_miss = if correct {
            KeyStrokeHitMiss::Correct
        } else {
            KeyStrokeHitMiss::Wrong
        };
        proof {
            if correct && first_events.len() > 0 {
                assert(events@.subrange(0, first_events.len() as int)[0] == events@[0]);
            }
        }
        (hit_miss, events)
    }
}

/// The key strokes of the wrong ones among the actual key strokes `a`, in order.
pub open spec fn wrong_key_strokes(a: Seq<ActualKeyStroke>) -> Seq<KeyStrokeChar>
    decreases a.len(),
{
    if a.len() == 0 {
        Seq::empty()
    } else if a.last().spec_is_correct() {
        wrong_key_strokes(a.drop_last())
    } else {
        wrong_key_strokes(a.drop_last()).push(a.last().spec_key_stroke())
    }
}

/// The key strokes of the wrong ones among actual key strokes.
fn wrong_key_strokes_of(actual: &[ActualKeyStroke]) -> (r: Vec<KeyStrokeChar>)
    ensures
        r@.len() <= actual@.len(),
        r@ == wrong_key_strokes(actual@),
{
    let mut r: Vec<KeyStrokeChar> = Vec::new();
    let mut i: usize = 0;
    assert(r@ =~= wrong_key_strokes(actual@.subrange(0, 0)));
    while i < actual.len()
        invariant
            i <= actual@.len(),
            r@.len() <= i,
            r@ == wrong_key_strokes(actual@.subrange(0, i as int)),
        decreases actual@.len() - i,
    {
        proof {
            assert(actual@.subrange(0, i + 1).drop_last() == actual@.subrange(0, i as int));
            assert(actual@.subrange(0, i + 1).last() == actual@[i as int]);
        }
        if !actual[i].is_correct() {
            r.push(actual[i].key_stroke());
        }
        i = i + 1;
    }
    assert(actual@.subrange(0, actual@.len() as int) == actual@);
    r
}

/// The key strokes that the `KeyStrokeSnapshotted` events among `events` report, in order.
pub open spec fn snapshotted_key_strokes(events: Seq<StatisticalEvent>) -> Seq<char>
    decreases events.len(),
{
    if events.len() == 0 {
        Seq::empty()
    } else {
        let p = snapshotted_key_strokes(events.drop_last());
        match events.last() {
            StatisticalEvent::KeyStrokeSnapshotted(c) => p.push(c.spec_key_stroke().spec_char()),
            _ => p,
        }
    }
}

/// The number of `KeyStrokeSnapshotted` events among `events` which report a key stroke
/// started, with the wrong key strokes typed for it.
pub open spec fn started_count(events: Seq<StatisticalEvent>) -> int
    decreases events.len(),
{
    if events.len() == 0 {
        0
    } else {
        started_count(events.drop_last()) + match events.last() {
            StatisticalEvent::KeyStrokeSnapshotted(c) => if c.spec_wrong_key_strokes() is Some { 1int } else { 0int },
            _ => 0int,
        }
    }
}

pub proof fn lemma_snapshotted_push(events: Seq<StatisticalEvent>, e: StatisticalEvent)
    ensures
        started_count(events.push(e)) == started_count(events) + match e {
            StatisticalEvent::KeyStrokeSnapshotted(c) => if c.spec_wrong_key_strokes() is Some { 1int } else { 0int },
            _ => 0int,
        },
        snapshotted_key_strokes(events.push(e)) == match e {
            StatisticalEvent::KeyStrokeSnapshotted(c) => snapshotted_key_strokes(events).push(c.spec_key_stroke().spec_char()),
            _ => snapshotted_key_strokes(events),
        },
{
    assert(events.push(e).drop_last() =~= events);
}

/// The head restriction under which a chunk to come is typed after `head`: `head` itself when
/// some candidate meets it, otherwise none.
pub open spec fn usable_head(c: ChunkUnprocessed, head: Option<KeyStrokeChar>) -> Option<KeyStrokeChar> {
    if exists|j: int| 0 <= j < c.spec_candidates().len() && meets_head(#[trigger] c.spec_candidates()[j], head) {
        head
    } else {
        None
    }
}

/// The candidate by which a chunk to come would ideally be typed after `head`: the first of
/// the fewest key strokes among those meeting its head restriction.
pub open spec fn snapshot_candidate(c: ChunkUnprocessed, head: Option<KeyStrokeChar>) -> ChunkKeyStrokeCandidate {
    let h = usable_head(c, head);
    c.spec_candidates()[choose|k: int| is_min_candidate_index(c.spec_candidates(), h, k)]
}

/// The key strokes of the chunks to come as they would ideally be typed, the first of them
/// after `head`.
pub open spec fn ideal_key_strokes_after(chunks: Seq<ChunkUnprocessed>, head: Option<KeyStrokeChar>) -> Seq<char>
    decreases chunks.len(),
{
    if chunks.len() == 0 {
        Seq::empty()
    } else {
        let c = snapshot_candidate(chunks[0], head);
        c.spec_whole() + ideal_key_strokes_after(chunks.skip(1), c.spec_next_chunk_head_constraint())
    }
}

/// The first candidate of the fewest key strokes is only one.
proof fn lemma_min_candidate_index_unique(s: Seq<ChunkKeyStrokeCandidate>, h: Option<KeyStrokeChar>, a: int, b: int)
    requires
        is_min_candidate_index(s, h, a),
        is_min_candidate_index(s, h, b),
    ensures
        a == b,
{
    if a < b {
        assert(meets_head(s[a], h));
    } else if b < a {
        assert(meets_head(s[b], h));
    }
}

/// The confirmed chunk `k` is the chunk `c` as it was typed.
pub open spec fn confirmed_from(k: ChunkConfirmed, c: ChunkInflight) -> bool {
    &&& k.spec_spell() == c.spec_spell()
    &&& k.spec_confirmed() == c.spec_candidates()[0]
    &&& k.spec_inactive() == c.spec_inactive()
    &&& k.spec_ideal() == c.spec_ideal()
    &&& k.spec_actual() == c.spec_actual()
}

/// The chunk `n` is the chunk to come `first` as it starts being typed under the head
/// restriction `h`.
pub open spec fn started_from(n: ChunkInflight, first: ChunkUnprocessed, h: Option<KeyStrokeChar>) -> bool {
    &&& n.spec_spell() == first.spec_spell()
    &&& n.spec_candidates() == split_by_head(first.spec_candidates(), h, true)
    &&& n.spec_inactive() == split_by_head(first.spec_candidates(), h, false)
    &&& n.spec_ideal() == first.spec_ideal()
    &&& n.spec_cursor() == 0
    &&& n.spec_actual().len() == 0
    &&& n.spec_pending().len() == 0
}

/// `new` is the chunks once the chunk being typed became `c`, after the chunks `confirmed` and
/// before the chunks `unprocessed`: `c` stays the one being typed while it is not confirmed;
/// once it is, it joins the confirmed chunks and the next chunk, if any, starts being typed
/// under the head restriction that `c` leaves.
pub open spec fn settled(new: ProcessedChunkInfo, confirmed: Seq<ChunkConfirmed>, c: ChunkInflight, unprocessed: Seq<ChunkUnprocessed>) -> bool {
    if !c.spec_is_confirmed() {
        &&& new.spec_inflight() == Some(c)
        &&& new.spec_confirmed() == confirmed
        &&& new.spec_unprocessed() == unprocessed
    } else {
        &&& new.spec_confirmed().len() == confirmed.len() + 1
        &&& new.spec_confirmed().drop_last() == confirmed
        &&& confirmed_from(new.spec_confirmed().last(), c)
        &&& unprocessed.len() == 0 ==> new.spec_inflight() is None && new.spec_unprocessed() == unprocessed
        &&& unprocessed.len() > 0 ==> new.spec_unprocessed() == unprocessed.drop_first() && (new.spec_inflight() matches Some(n)
            && started_from(n, unprocessed[0], usable_head(unprocessed[0], c.spec_effective().spec_next_chunk_head_constraint())))
    }
}

/// `new` is the chunks `old` after the key stroke `k` typed at `t`, when it does not confirm a
/// candidate waiting for the next chunk: the chunk being typed takes it, correct or wrong, and
/// the chunks settle.
pub open spec fn stroke_step(new: ProcessedChunkInfo, old: ProcessedChunkInfo, k: KeyStrokeChar, t: Duration) -> bool {
    let c = old.spec_inflight()->0;
    if c.spec_confirms_delayed(k) {
        true
    } else if c.spec_hits(k) {
        exists|c2: ChunkInflight| #[trigger] typed_correctly(c2, c, k, t) && settled(new, old.spec_confirmed(), c2, old.spec_unprocessed())
    } else {
        exists|c2: ChunkInflight| #[trigger] typed_wrongly(c2, c, k, t) && settled(new, old.spec_confirmed(), c2, old.spec_unprocessed())
    }
}

/// Whether `e` reports what typing did: a correct key stroke, a finished spell or a confirmed
/// chunk.
pub open spec fn is_typing_event(e: StatisticalEvent) -> bool {
    e is KeyStrokeCorrect || e is SpellFinished || e is ChunkConfirmed
}

/// Whether `e` reports the typing state as if typing stopped, as opposed to a change of it.
pub open spec fn is_snapshot_event(e: StatisticalEvent) -> bool {
    ||| e is SpellDeemedFinished
    ||| e is KeyStrokeSnapshotted
    ||| e is InflightSpellSnapshotted
    ||| e is IdealKeyStrokeDeemedFinished
}

impl ProcessedChunkInfo {
    /// The events which report the typing state as if it stopped now: ideal key strokes
    /// deemed finished, the spell of a candidate waiting for the next chunk deemed finished,
    /// the key strokes still to type (the one at the cursor started, with the wrong key
    /// strokes typed for it) and the spell being typed.
    #[verifier::spinoff_prover]
    #[verifier::rlimit(40)]
    pub fn snapshot(&self) -> (r: Vec<StatisticalEvent>)
        requires
            self.wf(),
        ensures
            self.spec_is_finished() ==> r@.len() == 0,
            forall|i: int| 0 <= i < r@.len() ==> is_snapshot_event(#[trigger] r@[i]),
            snapshotted_key_strokes(r@) == self.spec_key_strokes_left(),
            started_count(r@) <= 1,
    {
        let mut events: Vec<StatisticalEvent> = Vec::new();
        let mut head: Option<KeyStrokeChar> = None;
        let mut pending_for_next: Option<Vec<KeyStrokeChar>> = None;
        match &self.inflight_chunk {
            Some(inflight) => {
                let eff = inflight.effective_candidate();
                let cursor = inflight.key_stroke_cursor_position();
                let spell = inflight.spell();
                let ideal = inflight.ideal_key_stroke_candidate();
                let eff_count = eff.construct_key_stroke_element_count();
                let ideal_count = ideal.construct_key_stroke_element_count();
                let spell_count = spell.count();
                let counts = inflight.wrong_key_stroke_count_of_key_stroke_index();
                if counts.len() <= eff.calc_key_stroke_count() && has_positive_counts(&eff_count) && counts_fit_spell(&eff_count, spell_count)
                    && counts_fit_spell(&ideal_count, spell_count) {
                    let pseudo = ideal_count.construct_pseudo_count_of_spell_elements(spell_count);
                    if has_positive_counts(&pseudo) {
                        proof {
                            crate::chunk::has_actual_key_strokes::lemma_correct_count_le(inflight.spec_actual());
                        }
                        let ideal_wrong = crate::chunk::has_actual_key_strokes::wrong_key_stroke_count_of_ideal_key_stroke_index(
                            inflight.actual_key_strokes(),
                            eff,
                            ideal,
                            spell,
                        );
                        let mut k: usize = 0;
                        while k < ideal_wrong.len()
                            invariant
                                forall|x: int| 0 <= x < events@.len() ==> is_snapshot_event(#[trigger] events@[x]),
                                k <= ideal_wrong@.len(),
                                snapshotted_key_strokes(events@) == Seq::<char>::empty(),
                                started_count(events@) == 0,
                            decreases ideal_wrong@.len() - k,
                        {
                            let e = StatisticalEvent::IdealKeyStrokeDeemedFinished(IdealKeyStrokeDeemedFinishedContext::new(ideal_wrong[k]));
                            proof {
                                lemma_snapshotted_push(events@, e);
                            }
                            events.push(e);
                            k = k + 1;
                        }
                    }
                }
                if inflight.is_delayed_confirmable() {
                    if cursor > 0 {
                        match inflight.finishable_spell_index(cursor - 1) {
                            Some(index) => {
                                let e = StatisticalEvent::SpellDeemedFinished(inflight.spell_finished_context(index));
                                proof {
                                    lemma_snapshotted_push(events@, e);
                                }
                                events.push(e);
                            },
                            None => {},
                        }
                    }
                    pending_for_next = Some(wrong_key_strokes_of(inflight.pending_key_strokes()));
                } else {
                    let n = eff.calc_key_stroke_count();
                    let mut i: usize = cursor;
                    assert(eff.spec_whole().subrange(cursor as int, cursor as int) =~= Seq::<char>::empty());
                    while i < n
                        invariant
                            forall|x: int| 0 <= x < events@.len() ==> is_snapshot_event(#[trigger] events@[x]),
                            eff.wf(),
                            n == eff.spec_whole().len(),
                            cursor <= i <= n,
                            snapshotted_key_strokes(events@) == eff.spec_whole().subrange(cursor as int, i as int),
                            started_count(events@) == if i > cursor { 1int } else { 0int },
                        decreases n - i,
                    {
                        let k = eff.key_stroke_char_at_position(i);
                        let e = if i == cursor {
                            let wrong = key_strokes_of(&inflight.wrong_key_strokes_for_correct_key_stroke_index(cursor));
                            StatisticalEvent::KeyStrokeSnapshotted(KeyStrokeSnapshottedContext::new_started(&k, wrong))
                        } else {
                            StatisticalEvent::KeyStrokeSnapshotted(KeyStrokeSnapshottedContext::new_unstarted(&k))
                        };
                        proof {
                            lemma_snapshotted_push(events@, e);
                            assert(eff.spec_whole().subrange(cursor as int, i + 1) =~= eff.spec_whole().subrange(
                                cursor as int,
                                i as int,
                            ).push(k.spec_char()));
                        }
                        events.push(e);
                        i = i + 1;
                    }
                    let position = inflight.spell_cursor_position();
                    let (element, wrong) = match eff.belonging_element_index_of_key_stroke(cursor) {
                        Some(index) => (element_spell(spell, index), inflight.wrong_key_strokes_of_element_index(index)),
                        None => (spell.duplicate(), Vec::new()),
                    };
                    let e = StatisticalEvent::InflightSpellSnapshotted(
                        InflightSpellSnapshottedContext::new(element, position, key_strokes_of(&wrong)),
                    );
                    proof {
                        lemma_snapshotted_push(events@, e);
                    }
                    events.push(e);
                }
                head = eff.next_chunk_head_constraint();
            },
            None => {},
        }
        let mut i: usize = 0;
        proof {
            assert(self.spec_unprocessed().skip(0) == self.spec_unprocessed());
        }
        while i < self.unprocessed_chunks.len()
            invariant
                forall|x: int| 0 <= x < events@.len() ==> is_snapshot_event(#[trigger] events@[x]),
                self.wf(),
                i <= self.spec_unprocessed().len(),
                self.spec_is_finished() ==> events@.len() == 0,
                snapshotted_key_strokes(events@) + ideal_key_strokes_after(self.spec_unprocessed().skip(i as int), head)
                    == self.spec_key_strokes_left(),
                started_count(events@) + (if pending_for_next is Some && i == 0 { 1int } else { 0int }) <= 1,
            decreases self.spec_unprocessed().len() - i,
        {
            let ghost before = snapshotted_key_strokes(events@);
            let chunk = &self.unprocessed_chunks[i];
            let restriction = if some_meets_head(chunk.key_stroke_candidates(), head) {
                head
            } else {
                None
            };
            proof {
                if restriction is None {
                    assert(meets_head(chunk.spec_candidates()[0], None));
                }
            }
            let candidate = chunk.min_candidate(restriction);
            proof {
                let m = choose|m: int| is_min_candidate_index(chunk.spec_candidates(), restriction, m) && *candidate == chunk.spec_candidates()[m];
                assert(chunk.spec_candidates()[m].wf());
                let rest = self.spec_unprocessed().skip(i as int);
                assert(rest[0] == *chunk);
                assert(rest.skip(1) =~= self.spec_unprocessed().skip(i + 1));
                assert(usable_head(*chunk, head) == restriction);
                let k = choose|k: int| is_min_candidate_index(chunk.spec_candidates(), restriction, k);
                lemma_min_candidate_index_unique(chunk.spec_candidates(), restriction, k, m);
                assert(snapshot_candidate(*chunk, head) == *candidate);
                assert(candidate.spec_whole().subrange(0, 0) =~= Seq::<char>::empty());
                assert(before + candidate.spec_whole().subrange(0, 0) =~= before);
            }
            let n = candidate.calc_key_stroke_count();
            let mut j: usize = 0;
            while j < n
                invariant
                    forall|x: int| 0 <= x < events@.len() ==> is_snapshot_event(#[trigger] events@[x]),
                    candidate.wf(),
                    chunk.wf(),
                    n == candidate.spec_whole().len(),
                    j <= n,
                    snapshotted_key_strokes(events@) == before + candidate.spec_whole().subrange(0, j as int),
                    started_count(events@) + (if pending_for_next is Some && i == 0 && j == 0 { 1int } else { 0int }) <= 1,
                decreases n - j,
            {
                let ghost at_start = snapshotted_key_strokes(events@);
                let k = candidate.key_stroke_char_at_position(j);
                let started = if i == 0 && j == 0 {
                    match &pending_for_next {
                        Some(wrong) => {
                            let e = StatisticalEvent::KeyStrokeSnapshotted(KeyStrokeSnapshottedContext::new_started(&k, wrong.clone()));
                            proof {
                                lemma_snapshotted_push(events@, e);
                            }
                            events.push(e);
                            let spell = chunk.spell();
                            let position = spell_cursor_of(candidate, spell, 0);
                            let element = match candidate.belonging_element_index_of_key_stroke(0) {
                                Some(index) => element_spell(spell, index),
                                None => spell.duplicate(),
                            };
                            let e = StatisticalEvent::InflightSpellSnapshotted(
                                InflightSpellSnapshottedContext::new(element, position, wrong.clone()),
                            );
                            proof {
                                lemma_snapshotted_push(events@, e);
                            }
                            events.push(e);
                            true
                        },
                        None => false,
                    }
                } else {
                    false
                };
                if !started {
                    let e = StatisticalEvent::KeyStrokeSnapshotted(KeyStrokeSnapshottedContext::new_unstarted(&k));
                    proof {
                        lemma_snapshotted_push(events@, e);
                    }
                    events.push(e);
                }
                proof {
                    assert(candidate.spec_whole().subrange(0, j + 1) =~= candidate.spec_whole().subrange(0, j as int).push(k.spec_char()));
                }
                j = j + 1;
            }
            proof {
                assert(candidate.spec_whole().subrange(0, n as int) =~= candidate.spec_whole());
            }
            head = candidate.next_chunk_head_constraint();
            i = i + 1;
        }
        proof {
            assert(self.spec_unprocessed().skip(i as int) =~= Seq::<ChunkUnprocessed>::empty());
            assert(snapshotted_key_strokes(events@) + Seq::<char>::empty() =~= snapshotted_key_strokes(events@));
        }
        events
    }
}

/// The number of correct key strokes among the first `n` of `a`.
pub open spec fn correct_count_upto(a: Seq<ActualKeyStroke>, n: int) -> int
    decreases n,
{
    if n <= 0 {
        0
    } else {
        correct_count_upto(a, n - 1) + if a[n - 1].spec_is_correct() { 1int } else { 0int }
    }
}

/// The number of spells finished by the first `n` key strokes of `a`: each correct key stroke
/// finishes the number of spells that `spell_ends` gives at its index.
pub open spec fn finished_spells_upto(a: Seq<ActualKeyStroke>, spell_ends: Seq<Option<usize>>, n: int) -> int
    decreases n,
{
    if n <= 0 {
        0
    } else {
        finished_spells_upto(a, spell_ends, n - 1) + if a[n - 1].spec_is_correct() && spell_ends[n - 1] is Some {
            spell_ends[n - 1]->0 as int
        } else {
            0int
        }
    }
}

/// Takes the key strokes of a chunk into account: each key stroke, and the spells finished by
/// correct ones as given by `spell_ends`.
fn replay_key_strokes(builder: &mut LapStatiticsBuilder, actual: &[ActualKeyStroke], spell_ends: &Vec<Option<usize>>)
    requires
        old(builder).wf(),
    ensures
        final(builder).wf(),
        final(builder).spec_request() == old(builder).spec_request(),
        !old(builder).spec_chunk_started() ==> *final(builder) == *old(builder),
        old(builder).spec_chunk_started() ==> {
            let n = if actual@.len() < spell_ends@.len() { actual@.len() as int } else { spell_ends@.len() as int };
            let c = correct_count_upto(actual@, n);
            &&& final(builder).spec_this_count() == old(builder).spec_this_count()
            &&& final(builder).spec_this_ideal_count() == old(builder).spec_this_ideal_count()
            &&& final(builder).spec_chunk() == old(builder).spec_chunk()
            &&& final(builder).spec_in_candidate() == sat_add(old(builder).spec_in_candidate(), c)
            &&& final(builder).spec_key_stroke().spec_finished() == sat_add(old(builder).spec_key_stroke().spec_finished(), c)
            &&& final(builder).spec_spell().spec_finished() == sat_add(
                old(builder).spec_spell().spec_finished(),
                finished_spells_upto(actual@, spell_ends@, n),
            )
            &&& final(builder).spec_key_stroke().spec_whole() == old(builder).spec_key_stroke().spec_whole()
            &&& final(builder).spec_ideal_key_stroke().spec_whole() == old(builder).spec_ideal_key_stroke().spec_whole()
            &&& final(builder).spec_spell().spec_whole() == old(builder).spec_spell().spec_whole()
            &&& final(builder).spec_last_time() == if n == 0 {
                old(builder).spec_last_time()
            } else {
                Some(actual@[n - 1].spec_elapsed_time())
            }
        },
{
    let mut i: usize = 0;
    proof {
        old(builder).spec_key_stroke().lemma_counts_bounded();
        old(builder).spec_spell().lemma_counts_bounded();
        old(builder).lemma_in_candidate_bounded();
    }
    while i < actual.len() && i < spell_ends.len()
        invariant
            builder.wf(),
            builder.spec_request() == old(builder).spec_request(),
            i <= actual@.len(),
            i <= spell_ends@.len(),
            !old(builder).spec_chunk_started() ==> *builder == *old(builder),
            old(builder).spec_chunk_started() ==> {
                let c = correct_count_upto(actual@, i as int);
                &&& builder.spec_this_count() == old(builder).spec_this_count()
                &&& builder.spec_this_ideal_count() == old(builder).spec_this_ideal_count()
                &&& builder.spec_chunk() == old(builder).spec_chunk()
                &&& builder.spec_in_candidate() == sat_add(old(builder).spec_in_candidate(), c)
                &&& builder.spec_key_stroke().spec_finished() == sat_add(old(builder).spec_key_stroke().spec_finished(), c)
                &&& builder.spec_spell().spec_finished() == sat_add(
                    old(builder).spec_spell().spec_finished(),
                    finished_spells_upto(actual@, spell_ends@, i as int),
                )
                &&& builder.spec_key_stroke().spec_whole() == old(builder).spec_key_stroke().spec_whole()
                &&& builder.spec_ideal_key_stroke().spec_whole() == old(builder).spec_ideal_key_stroke().spec_whole()
                &&& builder.spec_spell().spec_whole() == old(builder).spec_spell().spec_whole()
                &&& builder.spec_last_time() == if i == 0 {
                    old(builder).spec_last_time()
                } else {
                    Some(actual@[i - 1].spec_elapsed_time())
                }
            },
        decreases actual@.len() - i,
    {
        let k = actual[i];
        proof {
            lemma_counts_upto_nonnegative(actual@, spell_ends@, i as int);
        }
        if builder.has_chunk_started() {
            builder.on_actual_key_stroke(k.is_correct(), k.elapsed_time());
            if k.is_correct() {
                match spell_ends[i] {
                    Some(d) => builder.on_finish_spell(d),
                    None => {},
                }
            }
        }
        i = i + 1;
    }
}

proof fn lemma_counts_upto_nonnegative(a: Seq<ActualKeyStroke>, spell_ends: Seq<Option<usize>>, n: int)
    ensures
        correct_count_upto(a, n) >= 0,
        finished_spells_upto(a, spell_ends, n) >= 0,
    decreases n,
{
    if n > 0 {
        lemma_counts_upto_nonnegative(a, spell_ends, n - 1);
    }
}

/// The counts by which a chunk enters lap statistics: its key strokes as typed, its ideal key
/// strokes and its spell count.
pub type LapCounts = (KeyStrokeElementCount, KeyStrokeElementCount, int);

/// The lap counts of a confirmed chunk: the candidate typed and the ideal one.
pub open spec fn confirmed_lap_counts(c: ChunkConfirmed) -> LapCounts {
    (c.spec_confirmed().spec_key_stroke().spec_element_count(), c.spec_ideal().spec_key_stroke().spec_element_count(), c.spec_spell().spec_count())
}

/// The lap counts of the chunk being typed: the candidate of the fewest key strokes and the
/// ideal one.
pub open spec fn inflight_lap_counts(c: ChunkInflight) -> LapCounts {
    (c.spec_effective().spec_key_stroke().spec_element_count(), c.spec_ideal().spec_key_stroke().spec_element_count(), c.spec_spell().spec_count())
}

/// The lap counts of a chunk to come, as ideally typed.
pub open spec fn unprocessed_lap_counts(c: ChunkUnprocessed) -> LapCounts {
    (c.spec_ideal().spec_key_stroke().spec_element_count(), c.spec_ideal().spec_key_stroke().spec_element_count(), c.spec_spell().spec_count())
}

/// The targets of the kind `which` (0 key stroke, 1 ideal key stroke, 2 spell, 3 chunk) that a
/// chunk of the lap counts `c` adds.
pub open spec fn kind_amount(c: LapCounts, which: int) -> int {
    if which == 0 {
        c.0.spec_whole_count()
    } else if which == 1 {
        c.1.spec_whole_count()
    } else if which == 2 {
        c.2
    } else {
        1
    }
}

/// The number of targets of the kind `which` of chunks of the lap counts `counts`: chunks whose
/// counts are not those of a chunk add none; the count saturates at `usize::MAX`.
pub open spec fn whole_after(counts: Seq<LapCounts>, which: int) -> int
    decreases counts.len(),
{
    if counts.len() == 0 {
        0
    } else {
        let c = counts.last();
        let p = whole_after(counts.drop_last(), which);
        if valid_chunk_counts(c.0, c.1, c.2) {
            sat_add(p, kind_amount(c, which))
        } else {
            p
        }
    }
}

/// The number of targets of each kind of `b` are those of chunks of the lap counts `counts`.
pub open spec fn wholes_are(b: LapStatiticsBuilder, counts: Seq<LapCounts>) -> bool {
    &&& b.spec_key_stroke().spec_whole() == whole_after(counts, 0)
    &&& b.spec_ideal_key_stroke().spec_whole() == whole_after(counts, 1)
    &&& b.spec_spell().spec_whole() == whole_after(counts, 2)
    &&& b.spec_chunk().spec_whole() == whole_after(counts, 3)
}

/// The number of correct key strokes typed for the confirmed chunks `cs`.
pub open spec fn confirmed_correct(cs: Seq<ChunkConfirmed>) -> int
    decreases cs.len(),
{
    if cs.len() == 0 {
        0
    } else {
        confirmed_correct(cs.drop_last()) + correct_count_upto(cs.last().spec_actual(), cs.last().spec_actual().len() as int)
    }
}

/// The spells of a chunk finished by its correct key strokes `a`, when it is typed by
/// `candidate`.
pub open spec fn spells_finished_by(a: Seq<ActualKeyStroke>, candidate: ChunkKeyStrokeCandidate, spell: crate::chunk::ChunkSpell) -> int {
    finished_spells_upto(a, crate::chunk::has_actual_key_strokes::spec_spell_end_vector(a, candidate, spell), a.len() as int)
}

/// The number of spells finished by the key strokes typed for the confirmed chunks `cs`.
pub open spec fn confirmed_spells_finished(cs: Seq<ChunkConfirmed>) -> int
    decreases cs.len(),
{
    if cs.len() == 0 {
        0
    } else {
        confirmed_spells_finished(cs.drop_last()) + spells_finished_by(cs.last().spec_actual(), cs.last().spec_confirmed(), cs.last().spec_spell())
    }
}

/// `b` is the lap statistics of the chunks `p`, taken as `lap_request` asks: every chunk
/// counts its targets of each kind, and the key strokes and spells finished so far are
/// finished.
pub open spec fn is_lap_statistics_of(b: LapStatiticsBuilder, p: ProcessedChunkInfo, lap_request: LapRequest) -> bool {
    &&& b.wf()
    &&& b.spec_request() == lap_request
    &&& wholes_are(b, p.spec_lap_counts())
    &&& b.spec_key_stroke().spec_finished() == sat_add(0, p.spec_correct_typed())
    &&& b.spec_spell().spec_finished() == sat_add(0, p.spec_spells_finished())
    &&& b.spec_chunk().spec_finished() == sat_add(0, confirmed_chunks_finished(p.spec_confirmed()))
}

/// Some key stroke was typed for one of the confirmed chunks `cs`.
pub open spec fn any_typed(cs: Seq<ChunkConfirmed>) -> bool {
    exists|k: int| 0 <= k < cs.len() && (#[trigger] cs[k]).spec_actual().len() > 0
}

/// The number of the confirmed chunks `cs` finished at the time of a key stroke: each from the
/// first one for which a key stroke was typed on.
pub open spec fn confirmed_chunks_finished(cs: Seq<ChunkConfirmed>) -> int
    decreases cs.len(),
{
    if cs.len() == 0 {
        0
    } else {
        confirmed_chunks_finished(cs.drop_last()) + if any_typed(cs) { 1int } else { 0int }
    }
}

impl ProcessedChunkInfo {
    /// The lap counts of the chunks, in order: confirmed, being typed and to come.
    pub open spec fn spec_lap_counts(self) -> Seq<LapCounts> {
        let nc = self.spec_confirmed().len() as int;
        let ni = if self.spec_inflight() is Some { 1int } else { 0int };
        Seq::new(
            (nc + ni + self.spec_unprocessed().len()) as nat,
            |k: int|
                if k < nc {
                    confirmed_lap_counts(self.spec_confirmed()[k])
                } else if k < nc + ni {
                    inflight_lap_counts(self.spec_inflight()->0)
                } else {
                    unprocessed_lap_counts(self.spec_unprocessed()[k - nc - ni])
                },
        )
    }

    /// The correct key strokes typed so far: for the confirmed chunks, the chunk being typed,
    /// and, held back by it, the next chunk.
    pub open spec fn spec_correct_typed(self) -> int {
        confirmed_correct(self.spec_confirmed()) + match self.spec_inflight() {
            Some(c) => correct_count_upto(c.spec_actual(), c.spec_actual().len() as int) + if c.spec_delayed_index() is Some
                && self.spec_unprocessed().len() > 0 {
                correct_count_upto(c.spec_pending(), c.spec_pending().len() as int)
            } else {
                0
            },
            None => 0,
        }
    }

    /// The spells finished by the key strokes typed so far.
    pub open spec fn spec_spells_finished(self) -> int {
        confirmed_spells_finished(self.spec_confirmed()) + match self.spec_inflight() {
            Some(c) => spells_finished_by(c.spec_actual(), c.spec_effective(), c.spec_spell()),
            None => 0,
        }
    }
}

/// Taking in one more chunk extends the targets of each kind by its own.
proof fn lemma_wholes_step(new: LapStatiticsBuilder, old: LapStatiticsBuilder, counts: Seq<LapCounts>, k: int)
    requires
        0 <= k < counts.len(),
        wholes_are(old, counts.take(k)),
        valid_chunk_counts(counts[k].0, counts[k].1, counts[k].2) ==> chunk_added(new, old, counts[k].0, counts[k].1, counts[k].2),
        !valid_chunk_counts(counts[k].0, counts[k].1, counts[k].2) ==> new == old,
    ensures
        wholes_are(new, counts.take(k + 1)),
{
    assert(counts.take(k + 1).drop_last() =~= counts.take(k));
    assert(counts.take(k + 1).last() == counts[k]);
}

proof fn lemma_chunks_finished_bounds(cs: Seq<ChunkConfirmed>)
    ensures
        0 <= confirmed_chunks_finished(cs) <= cs.len(),
    decreases cs.len(),
{
    if cs.len() > 0 {
        lemma_chunks_finished_bounds(cs.drop_last());
    }
}

proof fn lemma_typed_counts_nonnegative(cs: Seq<ChunkConfirmed>)
    ensures
        confirmed_correct(cs) >= 0,
        confirmed_spells_finished(cs) >= 0,
    decreases cs.len(),
{
    if cs.len() > 0 {
        lemma_typed_counts_nonnegative(cs.drop_last());
        let a = cs.last().spec_actual();
        lemma_counts_upto_nonnegative(a, crate::chunk::has_actual_key_strokes::spec_spell_end_vector(a, cs.last().spec_confirmed(), cs.last().spec_spell()), a.len() as int);
    }
}

impl ProcessedChunkInfo {
    /// Returns the lap statistics of the session so far, taking laps as `lap_request` asks:
    /// the confirmed chunks with the key strokes typed for them, the chunk being typed with
    /// its key strokes, and the chunks to come as they would ideally be typed (the key
    /// strokes held back by the chunk being typed counting for the first of them).
    pub fn construct_lap_statistics(&self, lap_request: LapRequest) -> (r: LapStatiticsBuilder)
        requires
            self.wf(),
        ensures
            is_lap_statistics_of(r, *self, lap_request),
    {
        let ghost counts = self.spec_lap_counts();
        let ghost nc = self.spec_confirmed().len() as int;
        let ghost ni = if self.spec_inflight() is Some { 1int } else { 0int };
        let mut builder = LapStatiticsBuilder::new(lap_request);
        let mut i: usize = 0;
        proof {
            assert(counts.take(0) =~= Seq::<LapCounts>::empty());
            assert(self.spec_confirmed().take(0) =~= Seq::<ChunkConfirmed>::empty());
        }
        while i < self.confirmed_chunks.len()
            invariant
                self.wf(),
                builder.wf(),
                builder.spec_request() == lap_request,
                counts == self.spec_lap_counts(),
                nc == self.spec_confirmed().len(),
                i <= nc,
                wholes_are(builder, counts.take(i as int)),
                builder.spec_key_stroke().spec_finished() == sat_add(0, confirmed_correct(self.spec_confirmed().take(i as int))),
                builder.spec_spell().spec_finished() == sat_add(0, confirmed_spells_finished(self.spec_confirmed().take(i as int))),
                builder.spec_chunk().spec_finished() == sat_add(0, confirmed_chunks_finished(self.spec_confirmed().take(i as int))),
                builder.spec_last_time() is Some == any_typed(self.spec_confirmed().take(i as int)),
                i > 0 ==> builder.spec_chunk_started(),
            decreases self.spec_confirmed().len() - i,
        {
            let chunk = &self.confirmed_chunks[i];
            assert(chunk.wf());
            let ghost cs = self.spec_confirmed().take(i + 1);
            proof {
                assert(cs.drop_last() =~= self.spec_confirmed().take(i as int));
                assert(cs.last() == *chunk);
                assert(counts[i as int] == confirmed_lap_counts(*chunk));
                lemma_typed_counts_nonnegative(cs.drop_last());
            }
            let confirmed = chunk.confirmed_key_stroke_candidate();
            let ideal = chunk.ideal_key_stroke_candidate();
            let ghost b0 = builder;
            builder.add_chunk_if_valid(
                confirmed.construct_key_stroke_element_count(),
                ideal.construct_key_stroke_element_count(),
                chunk.spell().count(),
            );
            proof {
                lemma_wholes_step(builder, b0, counts, i as int);
            }
            let c = confirmed.calc_key_stroke_count();
            let ic = ideal.calc_key_stroke_count();
            if c > 0 && ic > 0 {
                builder.on_start_chunk(c, ic);
            }
            let ends = chunk.construct_spell_end_vector();
            proof {
                let a = chunk.spec_actual();
                lemma_counts_upto_nonnegative(a, ends@, a.len() as int);
                assert(builder.spec_chunk_started());
                assert(ends@.len() == a.len());
            }
            let ghost b1 = builder;
            replay_key_strokes(&mut builder, chunk.actual_key_strokes(), &ends);
            proof {
                let a = chunk.spec_actual();
                assert(builder.spec_key_stroke().spec_finished() == sat_add(b1.spec_key_stroke().spec_finished(), correct_count_upto(a, a.len() as int)));
                assert(confirmed_correct(cs) == confirmed_correct(cs.drop_last()) + correct_count_upto(a, a.len() as int));
                assert(confirmed_spells_finished(cs) == confirmed_spells_finished(cs.drop_last()) + spells_finished_by(a, chunk.spec_confirmed(), chunk.spec_spell()));
                lemma_chunks_finished_bounds(cs.drop_last());
                if any_typed(cs.drop_last()) {
                    let k = choose|k: int| 0 <= k < cs.drop_last().len() && (#[trigger] cs.drop_last()[k]).spec_actual().len() > 0;
                    assert(cs[k] == cs.drop_last()[k]);
                }
                if a.len() > 0 {
                    assert(cs[i as int] == *chunk);
                }
                if any_typed(cs) {
                    let k = choose|k: int| 0 <= k < cs.len() && (#[trigger] cs[k]).spec_actual().len() > 0;
                    if k < i {
                        assert(cs.drop_last()[k] == cs[k]);
                    }
                }
                assert(any_typed(cs) == (any_typed(cs.drop_last()) || a.len() > 0));
            }
            if builder.has_key_stroke_time() {
                builder.on_finish_chunk();
            }
            i = i + 1;
        }
        proof {
            assert(self.spec_confirmed().take(nc) =~= self.spec_confirmed());
            lemma_typed_counts_nonnegative(self.spec_confirmed());
        }
        let mut delayed = false;
        match &self.inflight_chunk {
            Some(inflight) => {
                assert(meets_head(inflight.spec_candidates()[0], None));
                let min = inflight.min_candidate(None);
                proof {
                    let m = choose|m: int| is_min_candidate_index(inflight.spec_candidates(), None, m) && *min == inflight.spec_candidates()[m];
                    let e = choose|k: int| is_min_candidate_index(inflight.spec_candidates(), None, k);
                    lemma_min_candidate_index_unique(inflight.spec_candidates(), None, e, m);
                    assert(*min == inflight.spec_effective());
                    assert(counts[nc] == inflight_lap_counts(*inflight));
                }
                let ideal = inflight.ideal_key_stroke_candidate();
                let ghost b0 = builder;
                builder.add_chunk_if_valid(
                    min.construct_key_stroke_element_count(),
                    ideal.construct_key_stroke_element_count(),
                    inflight.spell().count(),
                );
                proof {
                    lemma_wholes_step(builder, b0, counts, nc);
                }
                let c = min.calc_key_stroke_count();
                let ic = ideal.calc_key_stroke_count();
                if c > 0 && ic > 0 {
                    builder.on_start_chunk(c, ic);
                }
                let ends = inflight.construct_spell_end_vector();
                replay_key_strokes(&mut builder, inflight.actual_key_strokes(), &ends);
                delayed = inflight.is_delayed_confirmable();
                proof {
                    let a = inflight.spec_actual();
                    lemma_counts_upto_nonnegative(a, ends@, a.len() as int);
                }
            },
            None => {},
        }
        let ghost base_correct = confirmed_correct(self.spec_confirmed()) + match self.spec_inflight() {
            Some(c) => correct_count_upto(c.spec_actual(), c.spec_actual().len() as int),
            None => 0,
        };
        let mut j: usize = 0;
        while j < self.unprocessed_chunks.len()
            invariant
                self.wf(),
                builder.wf(),
                builder.spec_request() == lap_request,
                counts == self.spec_lap_counts(),
                nc == self.spec_confirmed().len(),
                ni == (if self.spec_inflight() is Some { 1int } else { 0int }),
                j <= self.spec_unprocessed().len(),
                wholes_are(builder, counts.take(nc + ni + j)),
                delayed == (self.spec_inflight() matches Some(c) && c.spec_delayed_index() is Some),
                self.spec_inflight() is Some ==> builder.spec_chunk_started(),
                base_correct == confirmed_correct(self.spec_confirmed()) + match self.spec_inflight() {
                    Some(c) => correct_count_upto(c.spec_actual(), c.spec_actual().len() as int),
                    None => 0,
                },
                base_correct >= 0,
                builder.spec_key_stroke().spec_finished() == sat_add(0, if j > 0 { self.spec_correct_typed() } else { base_correct }),
                builder.spec_spell().spec_finished() == sat_add(0, self.spec_spells_finished()),
                builder.spec_chunk().spec_finished() == sat_add(0, confirmed_chunks_finished(self.spec_confirmed())),
            decreases self.spec_unprocessed().len() - j,
        {
            let chunk = &self.unprocessed_chunks[j];
            assert(chunk.wf());
            if j == 0 && delayed {
                match &self.inflight_chunk {
                    Some(inflight) => {
                        let pending = inflight.pending_key_strokes();
                        let mut p: usize = 0;
                        proof {
                            lemma_counts_upto_nonnegative(pending@, pending@.map_values(|x: ActualKeyStroke| None::<usize>), 0);
                        }
                        while p < pending.len()
                            invariant
                                builder.wf(),
                                builder.spec_request() == lap_request,
                                builder.spec_chunk_started(),
                                p <= pending@.len(),
                                wholes_are(builder, counts.take(nc + ni)),
                                builder.spec_key_stroke().spec_finished() == sat_add(0, base_correct + correct_count_upto(pending@, p as int)),
                                builder.spec_spell().spec_finished() == sat_add(0, self.spec_spells_finished()),
                                builder.spec_chunk().spec_finished() == sat_add(0, confirmed_chunks_finished(self.spec_confirmed())),
                                base_correct >= 0,
                                correct_count_upto(pending@, p as int) >= 0,
                            decreases pending@.len() - p,
                        {
                            let k = pending[p];
                            if builder.has_chunk_started() {
                                builder.on_actual_key_stroke(k.is_correct(), k.elapsed_time());
                            }
                            p = p + 1;
                        }
                        proof {
                            assert(pending@ == inflight.spec_pending());
                            assert(self.spec_correct_typed() == base_correct + correct_count_upto(pending@, pending@.len() as int));
                        }
                    },
                    None => {},
                }
            }
            proof {
                if j == 0 && !delayed {
                    assert(self.spec_correct_typed() == base_correct);
                }
                assert(counts[nc + ni + j] == unprocessed_lap_counts(*chunk));
            }
            let count = chunk.ideal_key_stroke_candidate().construct_key_stroke_element_count();
            let ghost b0 = builder;
            builder.add_chunk_if_valid(count, count, chunk.spell().count());
            proof {
                lemma_wholes_step(builder, b0, counts, nc + ni + j);
            }
            j = j + 1;
        }
        proof {
            assert(counts.take(counts.len() as int) =~= counts);
        }
        builder
    }
}

} // verus!
