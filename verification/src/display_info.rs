//! What a typing game shows: the word, its spell and its key strokes with cursors and wrong
//! positions, summary statistics and laps.
use vstd::prelude::*;

use crate::statistics::display_string::{KeyStrokeDisplayStringBuilder, SpellDisplayStringBuilder};
use crate::statistics::lap_statistics::{LapInfo, PrimitiveLapStatisticsBuilder};
use crate::statistics::statistics_counter::{EntitySummaryStatistics, PrimitiveStatisticsCounter};
use crate::statistics::{construct_on_typing_statistics_target, OnTypingStatisticsTarget};
use crate::vocabulary::{convert_spell_positions_to_view_positions, view_positions_for, ViewPosition};

verus! {

/// The view positions of spell positions, none when there is no view position.
pub open spec fn view_positions_or_none(spell_positions: Seq<usize>, vps: Seq<ViewPosition>) -> Seq<usize> {
    if vps.len() == 0 {
        Seq::empty()
    } else {
        view_positions_for(spell_positions, vps)
    }
}

/// Converts spell positions to view positions; none when there is no view position.
fn view_positions_of(spell_positions: &Vec<usize>, vps: &Vec<ViewPosition>) -> (r: Vec<usize>)
    ensures
        r@ == view_positions_or_none(spell_positions@, vps@),
{
    if vps.len() == 0 {
        Vec::new()
    } else {
        convert_spell_positions_to_view_positions(spell_positions.as_slice(), vps.as_slice())
    }
}

/// What is shown of the spell of the query.
#[derive(Debug, Clone, PartialEq, Eq, Hash)]
pub struct SpellDisplayInfo {
    spell: String,
    current_cursor_positions: Vec<usize>,
    wrong_positions: Vec<usize>,
    last_position: usize,
    on_typing_statistics: OnTypingStatisticsTarget,
    summary_statistics: EntitySummaryStatistics,
}

impl SpellDisplayInfo {
    pub closed spec fn spec_spell(self) -> Seq<char> {
        self.spell@
    }

    pub closed spec fn spec_cursor(self) -> Seq<usize> {
        self.current_cursor_positions@
    }

    pub closed spec fn spec_wrong(self) -> Seq<usize> {
        self.wrong_positions@
    }

    pub closed spec fn spec_last_position(self) -> usize {
        self.last_position
    }

    pub closed spec fn spec_on_typing(self) -> OnTypingStatisticsTarget {
        self.on_typing_statistics
    }

    pub closed spec fn spec_summary(self) -> EntitySummaryStatistics {
        self.summary_statistics
    }

    pub fn new(
        spell: String,
        current_cursor_positions: Vec<usize>,
        wrong_positions: Vec<usize>,
        last_position: usize,
        on_typing_statistics: OnTypingStatisticsTarget,
        summary_statistics: EntitySummaryStatistics,
    ) -> (r: Self)
        ensures
            r.spec_spell() == spell@,
            r.spec_cursor() == current_cursor_positions@,
            r.spec_wrong() == wrong_positions@,
            r.spec_last_position() == last_position,
            r.spec_on_typing() == on_typing_statistics,
            r.spec_summary() == summary_statistics,
    {
        SpellDisplayInfo {
            spell,
            current_cursor_positions,
            wrong_positions,
            last_position,
            on_typing_statistics,
            summary_statistics,
        }
    }

    /// What is shown of the spell, from the spell string built, the counter and lap
    /// statistics of spells and their summary.
    pub fn new_with(
        spell_display_string_builder: &SpellDisplayStringBuilder,
        spell_statistics_counter: &PrimitiveStatisticsCounter,
        spell_lap_statistics_builder: &PrimitiveLapStatisticsBuilder,
        summary_statistics: EntitySummaryStatistics,
    ) -> (r: Self)
        requires
            spell_lap_statistics_builder.wf(),
        ensures
            r.spec_spell() == spell_display_string_builder.spec_spell(),
            r.spec_cursor() == spell_display_string_builder.spec_cursor_positions(),
            r.spec_wrong() == spell_display_string_builder.spec_wrong(),
            r.spec_last_position() == spell_display_string_builder.spec_last_position(),
            r.spec_summary() == summary_statistics,
            r.spec_on_typing().spec_lap_end_positions() == spell_lap_statistics_builder.spec_lap_end_positions(),
    {
        Self::new(
            spell_display_string_builder.spell(),
            spell_display_string_builder.cursor_position().construct_vec(),
            spell_display_string_builder.wrong_positions().clone(),
            spell_display_string_builder.last_position(),
            construct_on_typing_statistics_target(spell_statistics_counter, spell_lap_statistics_builder),
            summary_statistics,
        )
    }

    /// Returns the spell of the query.
    pub fn spell(&self) -> (r: &str)
        ensures
            r@ == self.spec_spell(),
    {
        self.spell.as_str()
    }

    /// Returns the positions of the spell being typed: several when one key stroke types
    /// several spell characters.
    pub fn current_cursor_positions(&self) -> (r: &Vec<usize>)
        ensures
            r@ == self.spec_cursor(),
    {
        &self.current_cursor_positions
    }

    /// Returns the positions of the spell where wrong key strokes were typed.
    pub fn wrong_positions(&self) -> (r: &Vec<usize>)
        ensures
            r@ == self.spec_wrong(),
    {
        &self.wrong_positions
    }

    /// Returns the positions of the spell where wrong key strokes were typed.
    pub fn missed_positions(&self) -> (r: &Vec<usize>)
        ensures
            r@ == self.spec_wrong(),
    {
        self.wrong_positions()
    }

    /// Returns the position of the last spell character to type.
    pub fn last_position(&self) -> (r: usize)
        ensures
            r == self.spec_last_position(),
    {
        self.last_position
    }

    /// Returns the counts and lap statistics of spells.
    pub fn on_typing_statistics(&self) -> (r: &OnTypingStatisticsTarget)
        ensures
            *r == self.spec_on_typing(),
    {
        &self.on_typing_statistics
    }

    /// Returns the summary statistics of spells.
    pub fn summary_statistics(&self) -> (r: &EntitySummaryStatistics)
        ensures
            *r == self.spec_summary(),
    {
        &self.summary_statistics
    }
}

/// What is shown of the word of the query.
#[derive(Debug, Clone, PartialEq, Eq, Hash)]
pub struct ViewDisplayInfo {
    view: String,
    current_cursor_positions: Vec<usize>,
    wrong_positions: Vec<usize>,
    last_position: usize,
}

impl ViewDisplayInfo {
    pub closed spec fn spec_view(self) -> Seq<char> {
        self.view@
    }

    pub closed spec fn spec_cursor(self) -> Seq<usize> {
        self.current_cursor_positions@
    }

    pub closed spec fn spec_wrong(self) -> Seq<usize> {
        self.wrong_positions@
    }

    pub closed spec fn spec_last_position(self) -> usize {
        self.last_position
    }

    /// What is shown of the word with all its parts given.
    pub fn from_parts(view: String, current_cursor_positions: Vec<usize>, wrong_positions: Vec<usize>, last_position: usize) -> (r: Self)
        ensures
            r.spec_view() == view@,
            r.spec_cursor() == current_cursor_positions@,
            r.spec_wrong() == wrong_positions@,
            r.spec_last_position() == last_position,
    {
        ViewDisplayInfo { view, current_cursor_positions, wrong_positions, last_position }
    }

    /// What is shown of the word `view`, from what is shown of its spell and the view
    /// positions of the spell characters: the cursor and the wrong positions are those of the
    /// spell, converted; the last position is the last view position of the last spell
    /// character to type (0 when there is no such view position).
    pub fn new(spell_display_info: &SpellDisplayInfo, view: String, view_position_of_spell: Vec<ViewPosition>) -> (r: Self)
        ensures
            r.spec_view() == view@,
            r.spec_cursor() == view_positions_or_none(spell_display_info.spec_cursor(), view_position_of_spell@),
            r.spec_wrong() == view_positions_or_none(spell_display_info.spec_wrong(), view_position_of_spell@),
            spell_display_info.spec_last_position() < view_position_of_spell@.len()
                && view_position_of_spell@[spell_display_info.spec_last_position() as int].spec_positions().len() > 0
                ==> r.spec_last_position() == view_position_of_spell@[spell_display_info.spec_last_position() as int].spec_positions().last(),
    {
        let cursor = view_positions_of(&spell_display_info.current_cursor_positions, &view_position_of_spell);
        let wrong = view_positions_of(&spell_display_info.wrong_positions, &view_position_of_spell);
        let last = spell_display_info.last_position;
        let last_position = if last < view_position_of_spell.len() {
            view_position_of_spell[last].last_position()
        } else {
            0
        };
        ViewDisplayInfo { view, current_cursor_positions: cursor, wrong_positions: wrong, last_position }
    }

    /// Returns the word of the query.
    pub fn view(&self) -> (r: &str)
        ensures
            r@ == self.spec_view(),
    {
        self.view.as_str()
    }

    /// Returns the positions of the word being typed: several when one key stroke types
    /// several characters.
    pub fn current_cursor_positions(&self) -> (r: &Vec<usize>)
        ensures
            r@ == self.spec_cursor(),
    {
        &self.current_cursor_positions
    }

    /// Returns the positions of the word where wrong key strokes were typed.
    pub fn wrong_positions(&self) -> (r: &Vec<usize>)
        ensures
            r@ == self.spec_wrong(),
    {
        &self.wrong_positions
    }

    /// Returns the positions of the word where wrong key strokes were typed.
    pub fn missed_positions(&self) -> (r: &Vec<usize>)
        ensures
            r@ == self.spec_wrong(),
    {
        self.wrong_positions()
    }

    /// Returns the position of the last character of the word to type.
    pub fn last_position(&self) -> (r: usize)
        ensures
            r == self.spec_last_position(),
    {
        self.last_position
    }
}

/// What is shown of the key strokes of the query.
#[derive(Debug, Clone, PartialEq, Eq, Hash)]
pub struct KeyStrokeDisplayInfo {
    key_stroke: String,
    current_cursor_position: usize,
    wrong_positions: Vec<usize>,
    on_typing_statistics: OnTypingStatisticsTarget,
    on_typing_statistics_ideal: OnTypingStatisticsTarget,
    summary_statistics: EntitySummaryStatistics,
}

impl KeyStrokeDisplayInfo {
    pub closed spec fn spec_key_stroke(self) -> Seq<char> {
        self.key_stroke@
    }

    pub closed spec fn spec_cursor(self) -> usize {
        self.current_cursor_position
    }

    pub closed spec fn spec_wrong(self) -> Seq<usize> {
        self.wrong_positions@
    }

    pub closed spec fn spec_on_typing(self) -> OnTypingStatisticsTarget {
        self.on_typing_statistics
    }

    pub closed spec fn spec_on_typing_ideal(self) -> OnTypingStatisticsTarget {
        self.on_typing_statistics_ideal
    }

    pub closed spec fn spec_summary(self) -> EntitySummaryStatistics {
        self.summary_statistics
    }

    pub fn new(
        key_stroke: String,
        current_cursor_position: usize,
        wrong_positions: Vec<usize>,
        on_typing_statistics: OnTypingStatisticsTarget,
        on_typing_statistics_ideal: OnTypingStatisticsTarget,
        summary_statistics: EntitySummaryStatistics,
    ) -> (r: Self)
        ensures
            r.spec_key_stroke() == key_stroke@,
            r.spec_cursor() == current_cursor_position,
            r.spec_wrong() == wrong_positions@,
            r.spec_on_typing() == on_typing_statistics,
            r.spec_on_typing_ideal() == on_typing_statistics_ideal,
            r.spec_summary() == summary_statistics,
    {
        KeyStrokeDisplayInfo {
            key_stroke,
            current_cursor_position,
            wrong_positions,
            on_typing_statistics,
            on_typing_statistics_ideal,
            summary_statistics,
        }
    }

    /// What is shown of the key strokes, from the key stroke string built, the counters and
    /// lap statistics of key strokes and ideal key strokes, and their summary.
    pub fn new_with(
        key_stroke_display_string_builder: &KeyStrokeDisplayStringBuilder,
        key_stroke_statistics_counter: &PrimitiveStatisticsCounter,
        key_stroke_lap_statistics_builder: &PrimitiveLapStatisticsBuilder,
        ideal_key_stroke_statistics_counter: &PrimitiveStatisticsCounter,
        ideal_key_stroke_lap_statistics_builder: &PrimitiveLapStatisticsBuilder,
        summary_statistics: EntitySummaryStatistics,
    ) -> (r: Self)
        requires
            key_stroke_lap_statistics_builder.wf(),
            ideal_key_stroke_lap_statistics_builder.wf(),
        ensures
            r.spec_key_stroke() == key_stroke_display_string_builder.spec_key_stroke(),
            r.spec_cursor() == key_stroke_display_string_builder.spec_cursor(),
            r.spec_wrong() == key_stroke_display_string_builder.spec_wrong(),
            r.spec_summary() == summary_statistics,
    {
        Self::new(
            key_stroke_display_string_builder.key_stroke(),
            key_stroke_display_string_builder.cursor_position(),
            key_stroke_display_string_builder.wrong_positions().clone(),
            construct_on_typing_statistics_target(key_stroke_statistics_counter, key_stroke_lap_statistics_builder),
            construct_on_typing_statistics_target(ideal_key_stroke_statistics_counter, ideal_key_stroke_lap_statistics_builder),
            summary_statistics,
        )
    }

    /// Returns the key strokes of the query.
    pub fn key_stroke(&self) -> (r: &str)
        ensures
            r@ == self.spec_key_stroke(),
    {
        self.key_stroke.as_str()
    }

    /// Returns the position of the key stroke to type.
    pub fn current_cursor_position(&self) -> (r: usize)
        ensures
            r == self.spec_cursor(),
    {
        self.current_cursor_position
    }

    /// Returns the positions where wrong key strokes were typed.
    pub fn wrong_positions(&self) -> (r: &Vec<usize>)
        ensures
            r@ == self.spec_wrong(),
    {
        &self.wrong_positions
    }

    /// Returns the positions where wrong key strokes were typed.
    pub fn missed_positions(&self) -> (r: &Vec<usize>)
        ensures
            r@ == self.spec_wrong(),
    {
        self.wrong_positions()
    }

    /// Returns the statistics of key strokes during typing.
    pub fn on_typing_statistics(&self) -> (r: &OnTypingStatisticsTarget)
        ensures
            *r == self.spec_on_typing(),
    {
        &self.on_typing_statistics
    }

    /// Returns the statistics of ideal key strokes during typing.
    pub fn on_typing_statistics_ideal(&self) -> (r: &OnTypingStatisticsTarget)
        ensures
            *r == self.spec_on_typing_ideal(),
    {
        &self.on_typing_statistics_ideal
    }

    /// Returns the summary statistics of key strokes.
    pub fn summary_statistics(&self) -> (r: &EntitySummaryStatistics)
        ensures
            *r == self.spec_summary(),
    {
        &self.summary_statistics
    }
}

/// What is shown of the ideal key strokes of the query.
#[derive(Debug, Clone, Copy, PartialEq, Eq, Hash)]
pub struct IdealKeyStrokeDisplayInfo {
    summary_statistics: EntitySummaryStatistics,
}

impl IdealKeyStrokeDisplayInfo {
    pub closed spec fn spec_summary(self) -> EntitySummaryStatistics {
        self.summary_statistics
    }

    pub fn new(summary_statistics: EntitySummaryStatistics) -> (r: Self)
        ensures
            r.spec_summary() == summary_statistics,
    {
        IdealKeyStrokeDisplayInfo { summary_statistics }
    }

    /// Returns the summary statistics of ideal key strokes.
    pub fn summary_statistics(&self) -> (r: &EntitySummaryStatistics)
        ensures
            *r == self.spec_summary(),
    {
        &self.summary_statistics
    }
}

/// Everything shown while typing.
#[derive(Debug, Clone, PartialEq, Eq, Hash)]
pub struct DisplayInfo {
    view: ViewDisplayInfo,
    spell: SpellDisplayInfo,
    key_stroke: KeyStrokeDisplayInfo,
    ideal_key_stroke: IdealKeyStrokeDisplayInfo,
    lap_info: LapInfo,
}

impl DisplayInfo {
    pub closed spec fn spec_view(self) -> ViewDisplayInfo {
        self.view
    }

    pub closed spec fn spec_spell(self) -> SpellDisplayInfo {
        self.spell
    }

    pub closed spec fn spec_key_stroke(self) -> KeyStrokeDisplayInfo {
        self.key_stroke
    }

    pub closed spec fn spec_ideal_key_stroke(self) -> IdealKeyStrokeDisplayInfo {
        self.ideal_key_stroke
    }

    pub closed spec fn spec_lap_info(self) -> LapInfo {
        self.lap_info
    }

    pub fn new(
        view: ViewDisplayInfo,
        spell: SpellDisplayInfo,
        key_stroke: KeyStrokeDisplayInfo,
        ideal_key_stroke: IdealKeyStrokeDisplayInfo,
        lap_info: LapInfo,
    ) -> (r: Self)
        ensures
            r.spec_view() == view,
            r.spec_spell() == spell,
            r.spec_key_stroke() == key_stroke,
            r.spec_ideal_key_stroke() == ideal_key_stroke,
            r.spec_lap_info() == lap_info,
    {
        DisplayInfo { view, spell, key_stroke, ideal_key_stroke, lap_info }
    }

    /// Returns what is shown of the word.
    pub fn view_info(&self) -> (r: &ViewDisplayInfo)
        ensures
            *r == self.spec_view(),
    {
        &self.view
    }

    /// Returns what is shown of the spell.
    pub fn spell_info(&self) -> (r: &SpellDisplayInfo)
        ensures
            *r == self.spec_spell(),
    {
        &self.spell
    }

    /// Returns what is shown of the key strokes.
    pub fn key_stroke_info(&self) -> (r: &KeyStrokeDisplayInfo)
        ensures
            *r == self.spec_key_stroke(),
    {
        &self.key_stroke
    }

    /// Returns what is shown of the ideal key strokes.
    pub fn ideal_key_stroke_info(&self) -> (r: &IdealKeyStrokeDisplayInfo)
        ensures
            *r == self.spec_ideal_key_stroke(),
    {
        &self.ideal_key_stroke
    }

    /// Returns the laps.
    pub fn lap_info(&self) -> (r: &LapInfo)
        ensures
            *r == self.spec_lap_info(),
    {
        &self.lap_info
    }
}

} // verus!
