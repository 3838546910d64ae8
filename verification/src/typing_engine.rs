//! The typing engine: a session of typing a query.
use vstd::prelude::*;

use crate::display_info::{DisplayInfo, IdealKeyStrokeDisplayInfo, KeyStrokeDisplayInfo, SpellDisplayInfo, ViewDisplayInfo};
use crate::key_stroke::KeyStrokeChar;
use crate::primitives::Duration;
use crate::query::{answers, Query, QueryRequest, VocabularyQuantifier};
use crate::statistics::display_string::DisplayStringBuilder;
use crate::statistics::manager::{is_zero, statistics_grow, StatisticsManager};
use crate::statistics::result::TypingResult;
use crate::statistics::skill_statistics::{stats_sorted, SkillStatisticsManager};
use crate::statistics::statistical_event::StatisticalEvent;
use crate::statistics::statistics_counter::{sat_add, EntitySummaryStatistics};
use crate::statistics::LapRequest;
use crate::chunk::unprocessed::ChunkUnprocessed;
use crate::statistics::lap_statistics::{is_lap_info_of, LapInfo, LapStatiticsBuilder};
use crate::vocabulary::{construct_view_position_of_spell_positions, flat_view_positions, is_offset, ViewPosition, VocabularyInfo};
use processed_chunk_info::{stroke_step, is_chunk_added_of, is_lap_statistics_of, is_snapshot_event, is_typing_event, snapshotted_key_strokes, unprocessed_spells, ProcessedChunkInfo};
use std::time::Instant;

pub mod processed_chunk_info;

verus! {

#[verifier::external_type_specification]
#[verifier::external_body]
pub struct ExInstant(std::time::Instant);

/// `std::time::Instant::now()`: the current instant of a monotonic clock. Nothing is promised
/// of it.
#[verifier::external_body]
fn now() -> (r: Instant) {
    Instant::now()
}

/// `std::time::Instant::elapsed()`: the time passed since `start`, in nanoseconds. It depends
/// on the clock, so nothing is promised of it.
#[verifier::external_body]
fn elapsed_since(start: &Instant) -> (r: Duration) {
    Duration::from_nanos(start.elapsed().as_nanos())
}

/// Why a typing engine refused a request.
#[derive(Debug, Clone, Copy, PartialEq, Eq, Structural, Hash)]
pub enum TypingEngineErrorKind {
    /// A query must be set first.
    MustBeInitialized,
    /// Typing must be started first.
    MustBeStarted,
    /// Typing is already finished.
    AlreadyFinished,
    /// No query could be built from the request.
    QueryNotConstructed,
}

/// An error of a typing engine.
#[derive(Debug, Clone, Copy, PartialEq, Eq, Structural, Hash)]
pub struct TypingEngineError {
    kind: TypingEngineErrorKind,
}

impl TypingEngineError {
    pub closed spec fn spec_kind(self) -> TypingEngineErrorKind {
        self.kind
    }

    pub fn new(kind: TypingEngineErrorKind) -> (r: Self)
        ensures
            r.spec_kind() == kind,
    {
        TypingEngineError { kind }
    }

    /// Returns why the request was refused.
    pub fn kind(&self) -> (r: TypingEngineErrorKind)
        ensures
            r == self.spec_kind(),
    {
        self.kind
    }

    /// Returns a description of the error.
    pub fn as_str(&self) -> (r: &'static str)
        ensures
            self.spec_kind() is MustBeInitialized ==> r@ == "not initialized"@,
            self.spec_kind() is MustBeStarted ==> r@ == "not started"@,
            self.spec_kind() is AlreadyFinished ==> r@ == "already finished"@,
            self.spec_kind() is QueryNotConstructed ==> r@ == "query not constructed"@,
    {
        match self.kind {
            TypingEngineErrorKind::MustBeInitialized => "not initialized",
            TypingEngineErrorKind::MustBeStarted => "not started",
            TypingEngineErrorKind::AlreadyFinished => "already finished",
            TypingEngineErrorKind::QueryNotConstructed => "query not constructed",
        }
    }
}

/// The stage of a typing session.
#[derive(Debug, Clone, Copy, PartialEq, Eq, Structural, Hash)]
pub enum TypingEngineState {
    /// No query yet.
    Uninitialized,
    /// A query is set; typing has not started.
    Ready,
    /// Typing has started.
    Started,
}

/// The words of the vocabularies `infos`, one after the other.
pub open spec fn views_of(infos: Seq<VocabularyInfo>) -> Seq<char>
    decreases infos.len(),
{
    if infos.len() == 0 {
        Seq::empty()
    } else {
        views_of(infos.drop_last()) + infos.last().spec_view()
    }
}

/// The spell characters added by the `ChunkAdded` events among `events`, in order.
pub open spec fn added_spells(events: Seq<StatisticalEvent>) -> Seq<char>
    decreases events.len(),
{
    if events.len() == 0 {
        Seq::empty()
    } else {
        added_spells(events.drop_last()) + match events.last() {
            StatisticalEvent::ChunkAdded(c) => c.spec_spell().spec_chars(),
            _ => Seq::empty(),
        }
    }
}

/// Events of typing add no spell.
proof fn lemma_no_added_spells(events: Seq<StatisticalEvent>)
    requires
        forall|i: int| 0 <= i < events.len() ==> #[trigger] is_typing_event(events[i]),
    ensures
        added_spells(events) == Seq::<char>::empty(),
    decreases events.len(),
{
    if events.len() > 0 {
        lemma_no_added_spells(events.drop_last());
        assert(is_typing_event(events[events.len() - 1]));
    }
}

/// The `ChunkAdded` events of chunks add the spells of the chunks.
proof fn lemma_added_spells_of_chunks(events: Seq<StatisticalEvent>, chunks: Seq<ChunkUnprocessed>)
    requires
        events.len() == chunks.len(),
        forall|i: int| 0 <= i < events.len() ==> is_chunk_added_of(#[trigger] events[i], chunks[i]),
    ensures
        added_spells(events) == unprocessed_spells(chunks),
    decreases events.len(),
{
    if events.len() > 0 {
        lemma_added_spells_of_chunks(events.drop_last(), chunks.drop_last());
        assert(is_chunk_added_of(events[events.len() - 1], chunks[chunks.len() - 1]));
    }
}

/// `lap` is the lap information of the lap statistics of the chunks `p`, taken as
/// `lap_request` asks, with the view positions of the spell characters of the vocabularies
/// `infos`.
pub open spec fn shows_laps_of(lap: LapInfo, p: ProcessedChunkInfo, infos: Seq<VocabularyInfo>, lap_request: LapRequest) -> bool {
    exists|b: LapStatiticsBuilder, vps: Seq<ViewPosition>| {
        &&& is_lap_statistics_of(b, p, lap_request)
        &&& #[trigger] is_lap_info_of(lap, b, vps)
        &&& vps.len() == flat_view_positions(infos).len()
        &&& forall|i: int| 0 <= i < vps.len() ==> is_offset(#[trigger] vps[i], flat_view_positions(infos)[i].0, flat_view_positions(infos)[i].1)
    }
}

/// What is shown of the word, `view`, is what is shown of the spell, `spell`, at the view
/// positions of the spell characters of the vocabularies `infos`.
pub open spec fn view_follows_spell(view: ViewDisplayInfo, spell: SpellDisplayInfo, infos: Seq<VocabularyInfo>) -> bool {
    exists|vps: Seq<ViewPosition>| {
        &&& vps.len() == flat_view_positions(infos).len()
        &&& forall|i: int| 0 <= i < vps.len() ==> is_offset(#[trigger] vps[i], flat_view_positions(infos)[i].0, flat_view_positions(infos)[i].1)
        &&& view.spec_cursor() == #[trigger] crate::display_info::view_positions_or_none(spell.spec_cursor(), vps)
        &&& view.spec_wrong() == crate::display_info::view_positions_or_none(spell.spec_wrong(), vps)
        &&& spell.spec_last_position() < vps.len() && vps[spell.spec_last_position() as int].spec_positions().len() > 0
            ==> view.spec_last_position() == vps[spell.spec_last_position() as int].spec_positions().last()
    }
}

/// A typing session: the query, the chunks typed and to type, and the statistics.
#[derive(Debug)]
pub struct TypingEngine {
    state: TypingEngineState,
    start_time: Option<Instant>,
    processed_chunk_info: Option<ProcessedChunkInfo>,
    vocabulary_infos: Option<Vec<VocabularyInfo>>,
    statistics_manager: StatisticsManager,
    display_string_builder: DisplayStringBuilder,
    skill_statistics_manager: SkillStatisticsManager,
}

impl TypingEngine {
    pub closed spec fn spec_state(self) -> TypingEngineState {
        self.state
    }

    /// The time typing started, once it has.
    pub closed spec fn spec_start_time(self) -> Option<Instant> {
        self.start_time
    }

    pub closed spec fn spec_chunks(self) -> Option<ProcessedChunkInfo> {
        self.processed_chunk_info
    }

    pub closed spec fn spec_vocabulary_infos(self) -> Option<Seq<VocabularyInfo>> {
        match self.vocabulary_infos {
            Some(v) => Some(v@),
            None => None,
        }
    }

    /// Typing is finished: typing has started and no chunk is left.
    pub open spec fn spec_is_finished(self) -> bool {
        &&& self.spec_state() is Started
        &&& self.spec_chunks() matches Some(p) && p.spec_is_finished()
    }

    /// Once a query is set the chunks and vocabularies are there, every chunk is well formed,
    /// and before typing starts no chunk is being typed; the skill statistics are in the order
    /// of the keys; no more targets are completely correct than finished; the strings shown
    /// hold what was typed only.
    pub open spec fn wf(self) -> bool {
        &&& (self.spec_state() is Uninitialized) == (self.spec_chunks() is None)
        &&& (self.spec_state() is Uninitialized) == (self.spec_vocabulary_infos() is None)
        &&& (self.spec_state() is Ready ==> self.spec_chunks()->0.parts_wf() && self.spec_chunks()->0.spec_inflight() is None
            && self.spec_chunks()->0.spec_unprocessed().len() > 0)
        &&& (self.spec_state() is Started ==> self.spec_chunks()->0.wf())
        &&& stats_sorted(self.spec_skill().spec_entries())
        &&& self.spec_statistics().correct_within_finished()
        &&& self.spec_display().typed_only()
        &&& (!(self.spec_state() is Uninitialized) ==> self.spec_display().spec_spell().spec_spell()
            == self.spec_chunks()->0.spec_all_spells())
    }

    pub closed spec fn spec_skill(self) -> SkillStatisticsManager {
        self.skill_statistics_manager
    }

    pub closed spec fn spec_statistics(self) -> StatisticsManager {
        self.statistics_manager
    }

    pub closed spec fn spec_display(self) -> DisplayStringBuilder {
        self.display_string_builder
    }

    /// Typing has started and a chunk is being typed.
    pub open spec fn spec_typing(self) -> bool {
        self.spec_state() is Started && self.spec_chunks() is Some && self.spec_chunks()->0.spec_inflight() is Some
    }

    /// The key stroke `k` is correct for the chunk being typed.
    pub open spec fn spec_hit_by(self, k: KeyStrokeChar) -> bool {
        self.spec_chunks()->0.spec_inflight()->0.spec_hits(k)
    }

    /// The key stroke `k` confirms the candidate of the chunk being typed which waits for the
    /// next chunk.
    pub open spec fn spec_confirms_delayed_by(self, k: KeyStrokeChar) -> bool {
        self.spec_chunks()->0.spec_inflight()->0.spec_confirms_delayed(k)
    }

    /// An engine with no query.
    pub fn new() -> (r: Self)
        ensures
            r.wf(),
            r.spec_state() is Uninitialized,
            r.spec_chunks() is None,
            r.spec_vocabulary_infos() is None,
            is_zero(r.spec_statistics().spec_key_stroke()),
            is_zero(r.spec_statistics().spec_ideal_key_stroke()),
            is_zero(r.spec_statistics().spec_spell()),
            is_zero(r.spec_statistics().spec_chunk()),
            r.spec_skill().spec_entries().len() == 0,
            r.spec_display().spec_spell().spec_spell().len() == 0,
            r.spec_display().spec_key_stroke().spec_key_stroke().len() == 0,
    {
        TypingEngine {
            state: TypingEngineState::Uninitialized,
            start_time: None,
            processed_chunk_info: None,
            vocabulary_infos: None,
            statistics_manager: StatisticsManager::new(),
            display_string_builder: DisplayStringBuilder::new(),
            skill_statistics_manager: SkillStatisticsManager::new(),
        }
    }

    /// Takes statistical events into account, in order.
    fn consume_events(&mut self, events: Vec<StatisticalEvent>)
        requires
            stats_sorted(old(self).spec_skill().spec_entries()),
        ensures
            stats_sorted(final(self).spec_skill().spec_entries()),
            final(self).spec_state() == old(self).spec_state(),
            final(self).spec_chunks() == old(self).spec_chunks(),
            final(self).spec_vocabulary_infos() == old(self).spec_vocabulary_infos(),
            final(self).spec_start_time() == old(self).spec_start_time(),
            statistics_grow(final(self).spec_statistics(), old(self).spec_statistics()),
            old(self).spec_statistics().correct_within_finished() ==> final(self).spec_statistics().correct_within_finished(),
            old(self).spec_display().typed_only() && (forall|i: int| 0 <= i < events@.len() ==> !is_snapshot_event(#[trigger] events@[i]))
                ==> final(self).spec_display().typed_only(),
            events@.len() == 0 ==> final(self).spec_statistics() == old(self).spec_statistics(),
            events@.len() > 0 && events@[0] is KeyStrokeCorrect ==> final(self).spec_statistics().spec_key_stroke().spec_finished()
                >= sat_add(old(self).spec_statistics().spec_key_stroke().spec_finished(), 1),
            final(self).spec_display().spec_spell().spec_spell() == old(self).spec_display().spec_spell().spec_spell() + added_spells(events@),
    {
        let ghost all = events@;
        let ghost mut done: int = 0;
        let mut events = events;
        proof {
            assert(all.skip(0) == all);
        }
        while events.len() > 0
            invariant
                stats_sorted(self.spec_skill().spec_entries()),
                self.spec_state() == old(self).spec_state(),
                self.spec_chunks() == old(self).spec_chunks(),
                self.spec_vocabulary_infos() == old(self).spec_vocabulary_infos(),
                self.spec_start_time() == old(self).spec_start_time(),
                0 <= done <= all.len(),
                events@ == all.skip(done),
                statistics_grow(self.spec_statistics(), old(self).spec_statistics()),
                old(self).spec_statistics().correct_within_finished() ==> self.spec_statistics().correct_within_finished(),
                old(self).spec_display().typed_only() && (forall|i: int| 0 <= i < all.len() ==> !is_snapshot_event(#[trigger] all[i]))
                    ==> self.spec_display().typed_only(),
                done == 0 ==> self.spec_statistics() == old(self).spec_statistics(),
                done > 0 && all[0] is KeyStrokeCorrect ==> self.spec_statistics().spec_key_stroke().spec_finished()
                    >= sat_add(old(self).spec_statistics().spec_key_stroke().spec_finished(), 1),
                self.spec_display().spec_spell().spec_spell() == old(self).spec_display().spec_spell().spec_spell() + added_spells(all.take(done)),
            decreases events@.len(),
        {
            let ghost before = self.spec_statistics();
            proof {
                before.spec_key_stroke().lemma_counts_bounded();
                assert(events@[0] == all[done]);
            }
            let event = events.remove(0);
            self.skill_statistics_manager.consume_event(&event);
            self.statistics_manager.consume_event(&event);
            let ghost display_before = self.display_string_builder;
            self.display_string_builder.consume_event(event);
            proof {
                self.display_string_builder.spec_key_stroke().lemma_cursor_bounded();
                display_before.spec_key_stroke().lemma_cursor_bounded();
            }
            proof {
                assert(events@ == all.skip(done + 1));
                assert(all.take(done + 1).drop_last() == all.take(done));
                assert(all.take(done + 1).last() == all[done]);
                done = done + 1;
            }
        }
        proof {
            assert(all.take(done) == all);
            assert(all.take(0) == Seq::<StatisticalEvent>::empty());
        }
    }

    /// Sets the query built from `query_request`, with fresh statistics; typing is then ready
    /// to start. When no query can be built the engine is left unchanged.
    pub fn init(&mut self, query_request: QueryRequest) -> (r: Result<(), TypingEngineError>)
        requires
            old(self).wf(),
        ensures
            final(self).wf(),
            r is Ok ==> final(self).spec_state() is Ready,
            r is Ok ==> exists|q: Query| {
                &&& #[trigger] answers(q, query_request)
                &&& final(self).spec_vocabulary_infos() == Some(q.spec_infos())
                &&& final(self).spec_chunks() matches Some(p) && p.spec_unprocessed() == q.spec_chunks() && p.spec_inflight() is None
                    && p.spec_confirmed().len() == 0
            },
            r matches Err(e) ==> e.spec_kind() is QueryNotConstructed && *final(self) == *old(self),
            query_request.spec_entries().len() == 0 ==> r is Err,
            query_request.spec_entries().len() > 0 && query_request.all_have_spell() ==> r is Ok,
    {
        match query_request.construct_query() {
            None => Err(TypingEngineError::new(TypingEngineErrorKind::QueryNotConstructed)),
            Some(query) => {
                proof {
                    crate::query::lemma_answers_elim(query, query_request);
                }
                let (vocabulary_infos, chunks) = query.decompose();
                let ghost cs = chunks@;
                let (pci, events) = ProcessedChunkInfo::new(chunks);
                self.vocabulary_infos = Some(vocabulary_infos);
                self.processed_chunk_info = Some(pci);
                self.statistics_manager = StatisticsManager::new();
                self.display_string_builder = DisplayStringBuilder::new();
                self.skill_statistics_manager = SkillStatisticsManager::new();
                self.start_time = None;
                self.state = TypingEngineState::Ready;
                let ghost evs = events@;
                self.consume_events(events);
                proof {
                    lemma_added_spells_of_chunks(evs, cs);
                    assert(self.spec_display().spec_spell().spec_spell() =~= unprocessed_spells(cs));
                }
                Ok(())
            },
        }
    }

    /// Appends the query built from `query_request` to the one set. Refused before a query is
    /// set; when no query can be built the engine is left unchanged.
    pub fn append_query(&mut self, query_request: QueryRequest) -> (r: Result<(), TypingEngineError>)
        requires
            old(self).wf(),
        ensures
            final(self).wf(),
            final(self).spec_state() == old(self).spec_state(),
            old(self).spec_state() is Uninitialized ==> (r matches Err(e) && e.spec_kind() is MustBeInitialized),
            r matches Err(e) ==> *final(self) == *old(self),
            !(old(self).spec_state() is Uninitialized) ==> (r matches Err(e) ==> e.spec_kind() is QueryNotConstructed),
            query_request.spec_entries().len() == 0 ==> r is Err,
            !(old(self).spec_state() is Uninitialized) && query_request.spec_entries().len() > 0 && query_request.all_have_spell()
                ==> r is Ok,
            r is Ok ==> final(self).spec_vocabulary_infos()->0.len() >= old(self).spec_vocabulary_infos()->0.len(),
            r is Ok ==> exists|q: Query| {
                &&& #[trigger] answers(q, query_request)
                &&& final(self).spec_vocabulary_infos() == Some(old(self).spec_vocabulary_infos()->0 + q.spec_infos())
                &&& final(self).spec_chunks() matches Some(p) && {
                    let o = old(self).spec_chunks()->0;
                    &&& p.spec_confirmed() == o.spec_confirmed()
                    &&& !o.spec_is_finished() ==> p.spec_unprocessed() == o.spec_unprocessed() + q.spec_chunks()
                        && p.spec_inflight() == o.spec_inflight()
                    &&& o.spec_is_finished() ==> p.spec_unprocessed() == q.spec_chunks().drop_first() && (p.spec_inflight() matches Some(c)
                        && c.spec_spell() == q.spec_chunks()[0].spec_spell() && c.spec_candidates() == q.spec_chunks()[0].spec_candidates()
                        && c.spec_ideal() == q.spec_chunks()[0].spec_ideal() && c.spec_cursor() == 0 && c.spec_actual().len() == 0)
                }
            },
    {
        if self.processed_chunk_info.is_none() || self.vocabulary_infos.is_none() {
            return Err(TypingEngineError::new(TypingEngineErrorKind::MustBeInitialized));
        }
        match query_request.construct_query() {
            None => Err(TypingEngineError::new(TypingEngineErrorKind::QueryNotConstructed)),
            Some(query) => {
                proof {
                    crate::query::lemma_answers_elim(query, query_request);
                }
                let (mut vocabulary_infos, chunks) = query.decompose();
                let ghost qchunks = chunks@;
                let mut infos = self.vocabulary_infos.take().unwrap();
                infos.append(&mut vocabulary_infos);
                self.vocabulary_infos = Some(infos);
                let mut pci = self.processed_chunk_info.take().unwrap();
                let ghost before = pci;
                proof {
                    assert(forall|i: int| 0 <= i < qchunks.len() ==> (#[trigger] qchunks[i]).wf());
                }
                let events = pci.append_chunks(chunks);
                proof {
                    assert forall|i: int| 0 <= i < pci.spec_unprocessed().len() implies (#[trigger] pci.spec_unprocessed()[i]).wf() by {
                        if before.spec_is_finished() {
                            assert(pci.spec_unprocessed()[i] == qchunks[i + 1]);
                        } else if i < before.spec_unprocessed().len() {
                            assert(pci.spec_unprocessed()[i] == before.spec_unprocessed()[i]);
                        } else {
                            assert(pci.spec_unprocessed()[i] == qchunks[i - before.spec_unprocessed().len()]);
                        }
                    }
                }
                self.processed_chunk_info = Some(pci);
                let ghost evs = events@;
                self.consume_events(events);
                proof {
                    lemma_added_spells_of_chunks(evs, qchunks);
                }
                Ok(())
            },
        }
    }

    /// Starts typing: the first chunk becomes the one being typed, and the clock starts.
    /// Refused before a query is set. Starting again changes nothing of the chunks.
    pub fn start(&mut self) -> (r: Result<(), TypingEngineError>)
        requires
            old(self).wf(),
        ensures
            final(self).wf(),
            old(self).spec_state() is Uninitialized <==> r is Err,
            r matches Err(e) ==> e.spec_kind() is MustBeInitialized && *final(self) == *old(self),
            r is Ok ==> final(self).spec_state() is Started,
            r is Ok ==> final(self).spec_start_time() is Some,
            r is Ok ==> final(self).spec_vocabulary_infos() == old(self).spec_vocabulary_infos(),
            old(self).spec_state() is Started ==> final(self).spec_chunks() == old(self).spec_chunks(),
            old(self).spec_state() is Ready ==> ({
                let p = old(self).spec_chunks()->0;
                let q = final(self).spec_chunks()->0;
                &&& q.spec_confirmed() == p.spec_confirmed()
                &&& p.spec_unprocessed().len() > 0 ==> q.spec_unprocessed() == p.spec_unprocessed().drop_first()
                &&& p.spec_unprocessed().len() > 0 ==> (q.spec_inflight() matches Some(c) && {
                    &&& c.spec_spell() == p.spec_unprocessed()[0].spec_spell()
                    &&& c.spec_ideal() == p.spec_unprocessed()[0].spec_ideal()
                    &&& c.spec_candidates() == p.spec_unprocessed()[0].spec_candidates()
                    &&& c.spec_cursor() == 0
                    &&& c.spec_actual().len() == 0
                })
                &&& p.spec_unprocessed().len() == 0 ==> q.spec_inflight() is None
            }),
    {
        match self.state {
            TypingEngineState::Uninitialized => Err(TypingEngineError::new(TypingEngineErrorKind::MustBeInitialized)),
            TypingEngineState::Ready => {
                let mut pci = self.processed_chunk_info.take().unwrap();
                proof {
                    if pci.spec_unprocessed().len() > 0 {
                        crate::chunk::unprocessed::lemma_split_by_no_head(pci.spec_unprocessed()[0].spec_candidates());
                    }
                }
                let event = pci.move_next_chunk();
                self.processed_chunk_info = Some(pci);
                match event {
                    Some(e) => {
                        let mut v: Vec<StatisticalEvent> = Vec::new();
                        v.push(e);
                        self.consume_events(v);
                    },
                    None => {},
                }
                self.state = TypingEngineState::Started;
                self.start_time = Some(now());
                Ok(())
            },
            TypingEngineState::Started => {
                self.start_time = Some(now());
                Ok(())
            },
        }
    }

    /// Gives a key stroke typed `elapsed_time` after typing started. Refused before typing
    /// starts and after it is finished; otherwise returns whether typing is finished.
    pub fn stroke_key_with_elapsed_time(&mut self, key_stroke: KeyStrokeChar, elapsed_time: Duration) -> (r: Result<bool, TypingEngineError>)
        requires
            old(self).wf(),
        ensures
            final(self).wf(),
            final(self).spec_state() == old(self).spec_state(),
            !(old(self).spec_state() is Started) ==> (r matches Err(e) && e.spec_kind() is MustBeStarted),
            old(self).spec_state() is Started && old(self).spec_chunks()->0.spec_inflight() is None ==> (r matches Err(e)
                && e.spec_kind() is AlreadyFinished),
            old(self).spec_state() is Started && old(self).spec_chunks()->0.spec_inflight() is Some ==> (r matches Ok(b)
                && b == final(self).spec_is_finished()),
            r is Err ==> *final(self) == *old(self),
            final(self).spec_vocabulary_infos() == old(self).spec_vocabulary_infos(),
            final(self).spec_start_time() == old(self).spec_start_time(),
            old(self).spec_state() is Started && old(self).spec_chunks()->0.spec_inflight() is Some ==> stroke_step(
                final(self).spec_chunks()->0,
                old(self).spec_chunks()->0,
                key_stroke,
                elapsed_time,
            ),
            statistics_grow(final(self).spec_statistics(), old(self).spec_statistics()),
            old(self).spec_typing() && !old(self).spec_hit_by(key_stroke) && !old(self).spec_confirms_delayed_by(key_stroke)
                ==> final(self).spec_statistics() == old(self).spec_statistics(),
            old(self).spec_typing() && old(self).spec_hit_by(key_stroke) && !old(self).spec_confirms_delayed_by(key_stroke)
                ==> final(self).spec_statistics().spec_key_stroke().spec_finished() >= sat_add(
                old(self).spec_statistics().spec_key_stroke().spec_finished(),
                1,
            ),
    {
        match self.state {
            TypingEngineState::Started => {},
            _ => {
                return Err(TypingEngineError::new(TypingEngineErrorKind::MustBeStarted));
            },
        }
        let mut pci = self.processed_chunk_info.take().unwrap();
        if !pci.has_inflight_chunk() {
            self.processed_chunk_info = Some(pci);
            return Err(TypingEngineError::new(TypingEngineErrorKind::AlreadyFinished));
        }
        let (_, events) = pci.stroke_key(key_stroke, elapsed_time);
        proof {
            lemma_no_added_spells(events@);
            assert forall|i: int| 0 <= i < events@.len() implies !is_snapshot_event(#[trigger] events@[i]) by {
                assert(is_typing_event(events@[i]));
            }
        }
        let finished = pci.is_finished();
        self.processed_chunk_info = Some(pci);
        self.consume_events(events);
        Ok(finished)
    }

    /// Gives a key stroke typed now. Refused before typing starts and after it is finished;
    /// otherwise returns whether typing is finished.
    pub fn stroke_key(&mut self, key_stroke: KeyStrokeChar) -> (r: Result<bool, TypingEngineError>)
        requires
            old(self).wf(),
        ensures
            final(self).wf(),
            final(self).spec_state() == old(self).spec_state(),
            !(old(self).spec_state() is Started) ==> (r matches Err(e) && e.spec_kind() is MustBeStarted),
            old(self).spec_state() is Started && old(self).spec_chunks()->0.spec_inflight() is None ==> (r matches Err(e)
                && e.spec_kind() is AlreadyFinished),
            old(self).spec_state() is Started && old(self).spec_chunks()->0.spec_inflight() is Some ==> (r matches Ok(b)
                && b == final(self).spec_is_finished()),
            r is Err ==> *final(self) == *old(self),
            final(self).spec_vocabulary_infos() == old(self).spec_vocabulary_infos(),
            final(self).spec_start_time() == old(self).spec_start_time(),
            old(self).spec_state() is Started && old(self).spec_chunks()->0.spec_inflight() is Some ==> exists|t: Duration|
                stroke_step(final(self).spec_chunks()->0, old(self).spec_chunks()->0, key_stroke, t),
            statistics_grow(final(self).spec_statistics(), old(self).spec_statistics()),
            old(self).spec_typing() && !old(self).spec_hit_by(key_stroke) && !old(self).spec_confirms_delayed_by(key_stroke)
                ==> final(self).spec_statistics() == old(self).spec_statistics(),
            old(self).spec_typing() && old(self).spec_hit_by(key_stroke) && !old(self).spec_confirms_delayed_by(key_stroke)
                ==> final(self).spec_statistics().spec_key_stroke().spec_finished() >= sat_add(
                old(self).spec_statistics().spec_key_stroke().spec_finished(),
                1,
            ),
    {
        let elapsed = match &self.start_time {
            Some(t) => elapsed_since(t),
            None => Duration::zero(),
        };
        self.stroke_key_with_elapsed_time(key_stroke, elapsed)
    }

    /// The whole word of the query: the words of its vocabularies, one after the other.
    fn construct_view(infos: &Vec<VocabularyInfo>) -> (r: String)
        ensures
            r@ == views_of(infos@),
    {
        let mut chars: Vec<char> = Vec::new();
        let mut i: usize = 0;
        while i < infos.len()
            invariant
                i <= infos@.len(),
                chars@ == views_of(infos@.take(i as int)),
            decreases infos@.len() - i,
        {
            let view = infos[i].view();
            let mut cs = crate::text::str_to_chars(view.as_str());
            chars.append(&mut cs);
            proof {
                assert(infos@.take(i + 1).drop_last() =~= infos@.take(i as int));
            }
            i = i + 1;
        }
        assert(infos@.take(infos@.len() as int) =~= infos@);
        crate::text::chars_to_string(chars.as_slice())
    }

    /// Returns what to show: the strings with cursors and wrong positions as of now, the
    /// summary statistics of every kind of target and the laps taken as `lap_request` asks.
    /// Refused before typing starts.
    pub fn construct_display_info(&self, lap_request: LapRequest) -> (r: Result<DisplayInfo, TypingEngineError>)
        requires
            self.wf(),
        ensures
            !(self.spec_state() is Started) <==> r is Err,
            r matches Err(e) ==> e.spec_kind() is MustBeStarted,
            r matches Ok(d) ==> d.spec_view().spec_view() == views_of(self.spec_vocabulary_infos()->0),
            r matches Ok(d) ==> d.spec_spell().spec_spell() == self.spec_chunks()->0.spec_all_spells(),
            r matches Ok(d) ==> {
                let k = self.spec_display().spec_key_stroke();
                let left = self.spec_chunks()->0.spec_key_strokes_left();
                let shown = d.spec_key_stroke();
                &&& shown.spec_key_stroke() == k.spec_key_stroke() + left
                &&& shown.spec_cursor() == k.spec_cursor()
                &&& shown.spec_wrong().len() >= k.spec_wrong().len()
                &&& shown.spec_wrong().take(k.spec_wrong().len() as int) == k.spec_wrong()
                &&& forall|i: int| k.spec_wrong().len() <= i < shown.spec_wrong().len() ==> #[trigger] shown.spec_wrong()[i] == k.spec_cursor()
                &&& forall|i: int| 0 <= i < shown.spec_wrong().len() ==> #[trigger] shown.spec_wrong()[i] <= shown.spec_cursor()
                &&& forall|i: int, j: int| 0 <= i < j < shown.spec_wrong().len() ==> (#[trigger] shown.spec_wrong()[i]) < (#[trigger] shown.spec_wrong()[j])
                &&& shown.spec_cursor() <= shown.spec_key_stroke().len()
                &&& shown.spec_summary().spec_whole() == sat_add(self.spec_statistics().spec_key_stroke().spec_whole(), left.len() as int)
                &&& shown.spec_summary().spec_finished() == self.spec_statistics().spec_key_stroke().spec_finished()
                &&& shown.spec_summary().spec_completely_correct() == self.spec_statistics().spec_key_stroke().spec_completely_correct()
            },
            r matches Ok(d) ==> (self.spec_chunks()->0.spec_is_finished() ==> {
                let l = self.spec_chunks()->0.spec_all_spells().len();
                &&& d.spec_key_stroke().spec_cursor() == d.spec_key_stroke().spec_key_stroke().len()
                &&& l > 0 ==> d.spec_spell().spec_cursor() == seq![l as usize]
            }),
            r matches Ok(d) ==> d.spec_spell().spec_last_position() == (if self.spec_chunks()->0.spec_all_spells().len() == 0 {
                0
            } else {
                self.spec_chunks()->0.spec_all_spells().len() - 1
            }),
            r matches Ok(d) ==> view_follows_spell(d.spec_view(), d.spec_spell(), self.spec_vocabulary_infos()->0),
            r matches Ok(d) ==> shows_laps_of(d.spec_lap_info(), self.spec_chunks()->0, self.spec_vocabulary_infos()->0, lap_request),
    {
        match self.state {
            TypingEngineState::Started => {},
            _ => {
                return Err(TypingEngineError::new(TypingEngineErrorKind::MustBeStarted));
            },
        }
        let pci = self.processed_chunk_info.as_ref().unwrap();
        let infos = self.vocabulary_infos.as_ref().unwrap();
        let mut statistics = self.statistics_manager;
        let mut display = self.display_string_builder.duplicate();
        let mut events = pci.snapshot();
        let ghost all = events@;
        let ghost mut done: int = 0;
        let ghost k0 = self.spec_display().spec_key_stroke();
        let ghost display0 = display;
        let ghost s0 = self.spec_statistics().spec_key_stroke();
        proof {
            assert(all.skip(0) == all);
            assert(all.take(0) =~= Seq::<StatisticalEvent>::empty());
            assert(k0.spec_key_stroke() + Seq::<char>::empty() =~= k0.spec_key_stroke());
            assert(k0.spec_wrong().take(k0.spec_wrong().len() as int) =~= k0.spec_wrong());
            s0.lemma_counts_bounded();
            k0.lemma_cursor_bounded();
        }
        while events.len() > 0
            invariant
                forall|i: int| 0 <= i < all.len() ==> is_snapshot_event(#[trigger] all[i]),
                0 <= done <= all.len(),
                events@ == all.skip(done),
                display.spec_spell().spec_spell() == self.spec_display().spec_spell().spec_spell(),
                display.spec_key_stroke().spec_key_stroke() == k0.spec_key_stroke() + snapshotted_key_strokes(all.take(done)),
                display.spec_key_stroke().spec_cursor() == k0.spec_cursor(),
                display.spec_key_stroke().spec_wrong().len() >= k0.spec_wrong().len(),
                display.spec_key_stroke().spec_wrong().take(k0.spec_wrong().len() as int) == k0.spec_wrong(),
                forall|i: int| k0.spec_wrong().len() <= i < display.spec_key_stroke().spec_wrong().len()
                    ==> #[trigger] display.spec_key_stroke().spec_wrong()[i] == k0.spec_cursor(),
                statistics.spec_key_stroke().spec_whole() == sat_add(s0.spec_whole(), snapshotted_key_strokes(all.take(done)).len() as int),
                statistics.spec_key_stroke().spec_finished() == s0.spec_finished(),
                statistics.spec_key_stroke().spec_completely_correct() == s0.spec_completely_correct(),
                0 <= s0.spec_whole() <= usize::MAX,
                0 <= k0.spec_cursor() <= usize::MAX,
                done == 0 ==> display == display0,
                display.spec_key_stroke().spec_wrong().len() <= k0.spec_wrong().len() + processed_chunk_info::started_count(all.take(done)),
                processed_chunk_info::started_count(all) <= 1,
            decreases events@.len(),
        {
            let ghost before_display = display;
            let ghost before_events = all.take(done);
            proof {
                assert(events@[0] == all[done]);
                assert(is_snapshot_event(all[done]));
                assert(all.take(done + 1) =~= before_events.push(all[done]));
                processed_chunk_info::lemma_snapshotted_push(before_events, all[done]);
            }
            let event = events.remove(0);
            statistics.consume_event(&event);
            display.consume_event(event);
            proof {
                let w = before_display.spec_key_stroke().spec_wrong();
                let w2 = display.spec_key_stroke().spec_wrong();
                assert(w2.take(k0.spec_wrong().len() as int) =~= w.take(k0.spec_wrong().len() as int));
                assert forall|i: int| k0.spec_wrong().len() <= i < w2.len() implies #[trigger] w2[i] == k0.spec_cursor() by {
                    if i < w.len() {
                        assert(w2[i] == w[i]);
                    }
                }
                assert(display.spec_key_stroke().spec_key_stroke() =~= k0.spec_key_stroke() + snapshotted_key_strokes(all.take(done + 1)));
                done = done + 1;
                assert(events@ =~= all.skip(done));
            }
        }
        proof {
            assert(all.take(done) =~= all);
            let w = display.spec_key_stroke().spec_wrong();
            assert forall|i: int| 0 <= i < w.len() implies #[trigger] w[i] <= k0.spec_cursor() by {
                if i < k0.spec_wrong().len() {
                    assert(w.take(k0.spec_wrong().len() as int)[i] == w[i]);
                    assert(k0.spec_wrong()[i] < k0.spec_cursor());
                }
            }
            assert forall|i: int, j: int| 0 <= i < j < w.len() implies (#[trigger] w[i]) < (#[trigger] w[j]) by {
                assert(w.take(k0.spec_wrong().len() as int)[i] == w[i]);
                if j < k0.spec_wrong().len() {
                    assert(w.take(k0.spec_wrong().len() as int)[j] == w[j]);
                    assert(k0.spec_wrong()[i] < k0.spec_wrong()[j]);
                } else {
                    assert(k0.spec_wrong()[i] < k0.spec_cursor());
                }
            }
        }
        let lap = pci.construct_lap_statistics(lap_request);
        let view_positions = construct_view_position_of_spell_positions(infos.as_slice());
        let lap_info = lap.construct_lap_info(view_positions.as_slice());
        let ghost lb = lap;
        let ghost vp = view_positions@;
        proof {
            assert(is_lap_statistics_of(lap, *pci, lap_request));
            assert(is_lap_info_of(lap_info, lap, view_positions@));
        }
        let (ks_lap, iks_lap, spell_lap, _) = lap.emit();
        let spell_summary = EntitySummaryStatistics::from_counter(statistics.spell_statistics_counter());
        let ks_summary = EntitySummaryStatistics::from_counter(statistics.key_stroke_statistics_counter());
        let iks_summary = EntitySummaryStatistics::from_counter(statistics.ideal_key_stroke_statistics_counter());
        let spell_info = SpellDisplayInfo::new_with(
            display.spell(),
            statistics.spell_statistics_counter(),
            &spell_lap,
            spell_summary,
        );
        let key_stroke_info = KeyStrokeDisplayInfo::new_with(
            display.key_stroke(),
            statistics.key_stroke_statistics_counter(),
            &ks_lap,
            statistics.ideal_key_stroke_statistics_counter(),
            &iks_lap,
            ks_summary,
        );
        let view = Self::construct_view(infos);
        let view_info = ViewDisplayInfo::new(&spell_info, view, view_positions);
        let result = DisplayInfo::new(view_info, spell_info, key_stroke_info, IdealKeyStrokeDisplayInfo::new(iks_summary), lap_info);
        proof {
            assert(is_lap_info_of(result.spec_lap_info(), lb, vp));
            assert(is_lap_statistics_of(lb, self.spec_chunks()->0, lap_request));
            assert(infos@ == self.spec_vocabulary_infos()->0);
            assert(vp.len() == flat_view_positions(self.spec_vocabulary_infos()->0).len());
            assert(forall|i: int| 0 <= i < vp.len() ==> is_offset(
                #[trigger] vp[i],
                flat_view_positions(self.spec_vocabulary_infos()->0)[i].0,
                flat_view_positions(self.spec_vocabulary_infos()->0)[i].1,
            ));
            assert(shows_laps_of(result.spec_lap_info(), self.spec_chunks()->0, self.spec_vocabulary_infos()->0, lap_request));
            assert(crate::display_info::view_positions_or_none(result.spec_spell().spec_cursor(), vp) == result.spec_view().spec_cursor());
            assert(view_follows_spell(result.spec_view(), result.spec_spell(), self.spec_vocabulary_infos()->0));
        }
        Ok(result)
    }

    /// Returns the result of the session: the time of the last correct key stroke, the counts
    /// of every kind of target and the skill statistics of the keys typed. Refused before
    /// typing starts.
    pub fn construct_result(&self, lap_request: LapRequest) -> (r: Result<TypingResult, TypingEngineError>)
        requires
            self.wf(),
        ensures
            !(self.spec_state() is Started) <==> r is Err,
            r matches Err(e) ==> e.spec_kind() is MustBeStarted,
            r matches Ok(res) ==> res.spec_total_time() == self.spec_chunks()->0.spec_last_correct_time(),
            r matches Ok(res) ==> self.spec_statistics().reports(res.spec_summary()),
            r matches Ok(res) ==> {
                let m = res.spec_summary();
                &&& m.spec_key_stroke().spec_completely_correct() <= m.spec_key_stroke().spec_finished()
                &&& m.spec_ideal_key_stroke().spec_completely_correct() <= m.spec_ideal_key_stroke().spec_finished()
                &&& m.spec_spell().spec_completely_correct() <= m.spec_spell().spec_finished()
                &&& m.spec_chunk().spec_completely_correct() <= m.spec_chunk().spec_finished()
            },
            r matches Ok(res) ==> self.spec_skill().reports(res.spec_skill_statistics()),
    {
        match self.state {
            TypingEngineState::Started => {},
            _ => {
                return Err(TypingEngineError::new(TypingEngineErrorKind::MustBeStarted));
            },
        }
        let pci = self.processed_chunk_info.as_ref().unwrap();
        let total_time = pci.last_correct_time();
        let summary = self.statistics_manager.construct_typing_result_summary();
        let skill = self.skill_statistics_manager.construct_skill_statistics();
        Ok(TypingResult::new(total_time, summary, skill))
    }
}

impl Default for TypingEngine {
    fn default() -> (r: Self)
        ensures
            r.wf(),
            r.spec_state() is Uninitialized,
    {
        Self::new()
    }
}

} // verus!
