use typing_engine::chunk::key_stroke_candidate::KeyStrokeElementCount;
use typing_engine::chunk::ChunkSpell;
use typing_engine::statistics::display_string::{DisplayStringBuilder, SpellCursorPosition};
use typing_engine::statistics::manager::StatisticsManager;
use typing_engine::statistics::statistical_event::{
    ChunkAddedContext, ChunkConfirmedContext, ChunkSpellCursorPosition, IdealKeyStrokeDeemedFinishedContext,
    InflightSpellSnapshottedContext, KeyStrokeCorrectContext, KeyStrokeSnapshottedContext, SpellFinishedContext,
    StatisticalEvent,
};
use typing_engine::statistics::statistics_counter::PrimitiveStatisticsCounter;
use typing_engine::{Duration, KeyStrokeChar, SpellString};

fn sp(s: &str) -> SpellString {
    SpellString::from_str(s).unwrap()
}

fn k(c: char) -> KeyStrokeChar {
    KeyStrokeChar::new(c).unwrap()
}

#[test]
fn spell_cursor_position_of_display_string_builder_without_inflight_spell_snapshotted_event_is_last_position_plus_one(
) {
    let mut display_string_builder = DisplayStringBuilder::new();
    let event = StatisticalEvent::ChunkAdded(ChunkAddedContext::new(
        ChunkSpell::new(sp("きょ")),
        KeyStrokeElementCount::Sigle(3),
    ));
    display_string_builder.consume_event(event);

    assert_eq!(
        display_string_builder.spell().cursor_position(),
        SpellCursorPosition::Single(2)
    );
}

#[test]
fn consume_chunk_added_event_update_statistics_manager() {
    let mut statistics_manager = StatisticsManager::new();
    let event = StatisticalEvent::ChunkAdded(ChunkAddedContext::new(
        ChunkSpell::new(sp("きょ")),
        KeyStrokeElementCount::Sigle(3),
    ));

    statistics_manager.consume_event(&event);

    assert_eq!(
        statistics_manager.chunk_statistics_counter(),
        &PrimitiveStatisticsCounter::new(0, 1, 0, 0)
    );
    assert_eq!(
        statistics_manager.spell_statistics_counter(),
        &PrimitiveStatisticsCounter::new(0, 2, 0, 0)
    );
    assert_eq!(
        statistics_manager.key_stroke_statistics_counter(),
        &PrimitiveStatisticsCounter::new(0, 0, 0, 0)
    );
    assert_eq!(
        statistics_manager.ideal_key_stroke_statistics_counter(),
        &PrimitiveStatisticsCounter::new(0, 3, 0, 0)
    );
}

#[test]
fn consume_chunk_added_event_update_display_string() {
    let mut display_string_builder = DisplayStringBuilder::new();
    let event = StatisticalEvent::ChunkAdded(ChunkAddedContext::new(
        ChunkSpell::new(sp("きょ")),
        KeyStrokeElementCount::Sigle(3),
    ));

    display_string_builder.consume_event(event);

    assert_eq!(display_string_builder.spell().spell(), "きょ");
    assert_eq!(display_string_builder.spell().last_position(), 1);
}

#[test]
fn consume_key_stroke_correct_event_without_wrong_stroke_update_statistics_manager() {
    let mut statistics_manager = StatisticsManager::new();
    let event = StatisticalEvent::KeyStrokeCorrect(KeyStrokeCorrectContext::new(
        k('u'), Duration::zero(),
        vec![],
    ));

    statistics_manager.consume_event(&event);

    assert_eq!(
        statistics_manager.chunk_statistics_counter(),
        &PrimitiveStatisticsCounter::new(0, 0, 0, 0)
    );
    assert_eq!(
        statistics_manager.spell_statistics_counter(),
        &PrimitiveStatisticsCounter::new(0, 0, 0, 0)
    );
    assert_eq!(
        statistics_manager.key_stroke_statistics_counter(),
        &PrimitiveStatisticsCounter::new(1, 1, 1, 0)
    );
    assert_eq!(
        statistics_manager.ideal_key_stroke_statistics_counter(),
        &PrimitiveStatisticsCounter::new(0, 0, 0, 0)
    );
}

#[test]
fn consume_key_stroke_correct_event_with_wrong_stroke_update_statistics_manager() {
    let mut statistics_manager = StatisticsManager::new();
    let event = StatisticalEvent::KeyStrokeCorrect(KeyStrokeCorrectContext::new(
        k('u'), Duration::zero(),
        vec![k('y'), k('i')],
    ));

    statistics_manager.consume_event(&event);

    assert_eq!(
        statistics_manager.chunk_statistics_counter(),
        &PrimitiveStatisticsCounter::new(0, 0, 0, 2)
    );
    assert_eq!(
        statistics_manager.spell_statistics_counter(),
        &PrimitiveStatisticsCounter::new(0, 0, 0, 0)
    );
    assert_eq!(
        statistics_manager.key_stroke_statistics_counter(),
        &PrimitiveStatisticsCounter::new(1, 1, 0, 2)
    );
    assert_eq!(
        statistics_manager.ideal_key_stroke_statistics_counter(),
        &PrimitiveStatisticsCounter::new(0, 0, 0, 2)
    );
}

#[test]
fn consume_key_stroke_correct_event_without_wrong_stroke_update_display_string() {
    let mut display_string_builder = DisplayStringBuilder::new();
    let event = StatisticalEvent::KeyStrokeCorrect(KeyStrokeCorrectContext::new(
        k('u'), Duration::zero(),
        vec![],
    ));

    display_string_builder.consume_event(event);

    assert_eq!(display_string_builder.key_stroke().key_stroke(), "u");
    assert_eq!(display_string_builder.key_stroke().cursor_position(), 1);
}

#[test]
fn consume_key_stroke_correct_event_with_wrong_stroke_update_display_string() {
    let mut display_string_builder = DisplayStringBuilder::new();
    let event = StatisticalEvent::KeyStrokeCorrect(KeyStrokeCorrectContext::new(
        k('u'), Duration::zero(),
        vec![k('y'), k('i')],
    ));

    display_string_builder.consume_event(event);

    assert_eq!(display_string_builder.key_stroke().key_stroke(), "u");
    assert_eq!(display_string_builder.key_stroke().cursor_position(), 1);
    assert_eq!(display_string_builder.key_stroke().wrong_positions(), &[0]);
}

#[test]
fn consume_spell_finished_event_without_wrong_key_stroke_update_statistics_manager() {
    let mut statistics_manager = StatisticsManager::new();
    let event = StatisticalEvent::SpellFinished(SpellFinishedContext::new(
        ChunkSpell::new(sp("う")),
        0,
    ));

    statistics_manager.consume_event(&event);

    assert_eq!(
        statistics_manager.chunk_statistics_counter(),
        &PrimitiveStatisticsCounter::new(0, 0, 0, 0)
    );
    assert_eq!(
        statistics_manager.spell_statistics_counter(),
        &PrimitiveStatisticsCounter::new(1, 0, 1, 0)
    );
    assert_eq!(
        statistics_manager.key_stroke_statistics_counter(),
        &PrimitiveStatisticsCounter::new(0, 0, 0, 0)
    );
    assert_eq!(
        statistics_manager.ideal_key_stroke_statistics_counter(),
        &PrimitiveStatisticsCounter::new(0, 0, 0, 0)
    );
}

#[test]
fn consume_spell_finished_event_with_wrong_key_stroke_update_statistics_manager() {
    let mut statistics_manager = StatisticsManager::new();
    let event = StatisticalEvent::SpellFinished(SpellFinishedContext::new(
        ChunkSpell::new(sp("う")),
        2,
    ));

    statistics_manager.consume_event(&event);

    assert_eq!(
        statistics_manager.chunk_statistics_counter(),
        &PrimitiveStatisticsCounter::new(0, 0, 0, 0)
    );
    assert_eq!(
        statistics_manager.spell_statistics_counter(),
        &PrimitiveStatisticsCounter::new(1, 0, 0, 2)
    );
    assert_eq!(
        statistics_manager.key_stroke_statistics_counter(),
        &PrimitiveStatisticsCounter::new(0, 0, 0, 0)
    );
    assert_eq!(
        statistics_manager.ideal_key_stroke_statistics_counter(),
        &PrimitiveStatisticsCounter::new(0, 0, 0, 0)
    );
}

#[test]
fn consume_spell_finished_event_without_wrong_key_stroke_update_display_string() {
    let mut display_string_builder = DisplayStringBuilder::new();
    let event = StatisticalEvent::SpellFinished(SpellFinishedContext::new(
        ChunkSpell::new(sp("う")),
        0,
    ));

    display_string_builder.consume_event(event);

    assert_eq!(display_string_builder.spell().wrong_positions(), &Vec::<usize>::new());
}

#[test]
fn consume_spell_finished_event_with_wrong_key_stroke_update_display_string() {
    let mut display_string_builder = DisplayStringBuilder::new();
    let event = StatisticalEvent::SpellFinished(SpellFinishedContext::new(
        ChunkSpell::new(sp("う")),
        0,
    ));
    display_string_builder.consume_event(event);
    let event = StatisticalEvent::SpellFinished(SpellFinishedContext::new(
        ChunkSpell::new(sp("きょ")),
        2,
    ));

    display_string_builder.consume_event(event);

    assert_eq!(display_string_builder.spell().wrong_positions(), &[1, 2]);
}

#[test]
fn consume_spell_deemed_finished_event_without_wrong_key_stroke_update_statistics_manager() {
    let mut statistics_manager = StatisticsManager::new();
    let event = StatisticalEvent::SpellDeemedFinished(SpellFinishedContext::new(
        ChunkSpell::new(sp("う")),
        0,
    ));

    statistics_manager.consume_event(&event);

    assert_eq!(
        statistics_manager.chunk_statistics_counter(),
        &PrimitiveStatisticsCounter::new(0, 0, 0, 0)
    );
    assert_eq!(
        statistics_manager.spell_statistics_counter(),
        &PrimitiveStatisticsCounter::new(1, 0, 1, 0)
    );
    assert_eq!(
        statistics_manager.key_stroke_statistics_counter(),
        &PrimitiveStatisticsCounter::new(0, 0, 0, 0)
    );
    assert_eq!(
        statistics_manager.ideal_key_stroke_statistics_counter(),
        &PrimitiveStatisticsCounter::new(0, 0, 0, 0)
    );
}

#[test]
fn consume_spell_deemed_finished_event_with_wrong_key_stroke_update_statistics_manager() {
    let mut statistics_manager = StatisticsManager::new();
    let event = StatisticalEvent::SpellDeemedFinished(SpellFinishedContext::new(
        ChunkSpell::new(sp("う")),
        2,
    ));

    statistics_manager.consume_event(&event);

    assert_eq!(
        statistics_manager.chunk_statistics_counter(),
        &PrimitiveStatisticsCounter::new(0, 0, 0, 0)
    );
    assert_eq!(
        statistics_manager.spell_statistics_counter(),
        &PrimitiveStatisticsCounter::new(1, 0, 0, 2)
    );
    assert_eq!(
        statistics_manager.key_stroke_statistics_counter(),
        &PrimitiveStatisticsCounter::new(0, 0, 0, 0)
    );
    assert_eq!(
        statistics_manager.ideal_key_stroke_statistics_counter(),
        &PrimitiveStatisticsCounter::new(0, 0, 0, 0)
    );
}

#[test]
fn consume_spell_deemed_finished_event_without_wrong_key_stroke_update_display_string() {
    let mut display_string_builder = DisplayStringBuilder::new();
    let event = StatisticalEvent::SpellDeemedFinished(SpellFinishedContext::new(
        ChunkSpell::new(sp("う")),
        0,
    ));

    display_string_builder.consume_event(event);

    assert_eq!(display_string_builder.spell().wrong_positions(), &Vec::<usize>::new());
}

#[test]
fn consume_spell_deemed_finished_event_with_wrong_key_stroke_update_display_string() {
    let mut display_string_builder = DisplayStringBuilder::new();
    let event = StatisticalEvent::SpellDeemedFinished(SpellFinishedContext::new(
        ChunkSpell::new(sp("う")),
        0,
    ));
    display_string_builder.consume_event(event);
    let event = StatisticalEvent::SpellFinished(SpellFinishedContext::new(
        ChunkSpell::new(sp("きょ")),
        2,
    ));

    display_string_builder.consume_event(event);

    assert_eq!(display_string_builder.spell().wrong_positions(), &[1, 2]);
}

#[test]
fn consume_chunk_confirmed_event_without_wrong_key_stroke() {
    let mut statistics_manager = StatisticsManager::new();
    let event = StatisticalEvent::ChunkConfirmed(ChunkConfirmedContext::new(1, vec![0]));

    statistics_manager.consume_event(&event);

    assert_eq!(
        statistics_manager.chunk_statistics_counter(),
        &PrimitiveStatisticsCounter::new(1, 0, 1, 0)
    );
    assert_eq!(
        statistics_manager.spell_statistics_counter(),
        &PrimitiveStatisticsCounter::new(0, 0, 0, 0)
    );
    assert_eq!(
        statistics_manager.key_stroke_statistics_counter(),
        &PrimitiveStatisticsCounter::new(0, 0, 0, 0)
    );
    assert_eq!(
        statistics_manager.ideal_key_stroke_statistics_counter(),
        &PrimitiveStatisticsCounter::new(1, 0, 1, 0)
    );
}

#[test]
fn consume_chunk_confirmed_event_with_wrong_key_stroke() {
    let mut statistics_manager = StatisticsManager::new();
    let event =
        StatisticalEvent::ChunkConfirmed(ChunkConfirmedContext::new(3, vec![1, 0, 0, 0, 2]));

    statistics_manager.consume_event(&event);

    assert_eq!(
        statistics_manager.chunk_statistics_counter(),
        &PrimitiveStatisticsCounter::new(1, 0, 0, 0)
    );
    assert_eq!(
        statistics_manager.spell_statistics_counter(),
        &PrimitiveStatisticsCounter::new(0, 0, 0, 0)
    );
    assert_eq!(
        statistics_manager.key_stroke_statistics_counter(),
        &PrimitiveStatisticsCounter::new(0, 0, 0, 0)
    );
    assert_eq!(
        statistics_manager.ideal_key_stroke_statistics_counter(),
        &PrimitiveStatisticsCounter::new(3, 0, 1, 0)
    );
}

#[test]
fn consume_key_stroke_snapshotted_event_unstarted_update_display_string() {
    let mut display_string_builder = DisplayStringBuilder::new();
    let event = StatisticalEvent::KeyStrokeSnapshotted(
        KeyStrokeSnapshottedContext::new_unstarted(&k('u')),
    );

    display_string_builder.consume_event(event);

    assert_eq!(display_string_builder.key_stroke().key_stroke(), "u");
    assert_eq!(display_string_builder.key_stroke().cursor_position(), 0);
}

#[test]
fn consume_key_stroke_snapshotted_event_started_without_wrong_stroke_update_display_string() {
    let mut display_string_builder = DisplayStringBuilder::new();
    let event = StatisticalEvent::KeyStrokeSnapshotted(
        KeyStrokeSnapshottedContext::new_started(&k('u'), vec![]),
    );

    display_string_builder.consume_event(event);

    assert_eq!(display_string_builder.key_stroke().key_stroke(), "u");
    assert_eq!(display_string_builder.key_stroke().cursor_position(), 0);
    assert_eq!(display_string_builder.key_stroke().wrong_positions(), &Vec::<usize>::new());
}

#[test]
fn consume_key_stroke_snapshotted_event_started_with_wrong_stroke_update_display_string() {
    let mut display_string_builder = DisplayStringBuilder::new();
    let event =
        StatisticalEvent::KeyStrokeSnapshotted(KeyStrokeSnapshottedContext::new_started(
            &k('u'),
            vec![k('y'), k('i')],
        ));

    display_string_builder.consume_event(event);

    assert_eq!(display_string_builder.key_stroke().key_stroke(), "u");
    assert_eq!(display_string_builder.key_stroke().cursor_position(), 0);
    assert_eq!(display_string_builder.key_stroke().wrong_positions(), &[0]);
}

#[test]
fn consume_key_stroke_snapshotted_event_unstarted_update_statistics_manager() {
    let mut statistics_manager = StatisticsManager::new();
    let event = StatisticalEvent::KeyStrokeSnapshotted(
        KeyStrokeSnapshottedContext::new_unstarted(&k('u')),
    );

    statistics_manager.consume_event(&event);

    assert_eq!(
        statistics_manager.chunk_statistics_counter(),
        &PrimitiveStatisticsCounter::new(0, 0, 0, 0)
    );
    assert_eq!(
        statistics_manager.spell_statistics_counter(),
        &PrimitiveStatisticsCounter::new(0, 0, 0, 0)
    );
    assert_eq!(
        statistics_manager.key_stroke_statistics_counter(),
        &PrimitiveStatisticsCounter::new(0, 1, 0, 0)
    );
    assert_eq!(
        statistics_manager.ideal_key_stroke_statistics_counter(),
        &PrimitiveStatisticsCounter::new(0, 0, 0, 0)
    );
}

#[test]
fn consume_key_stroke_snapshotted_event_started_without_wrong_stroke_update_statistics_manager()
{
    let mut statistics_manager = StatisticsManager::new();
    let event = StatisticalEvent::KeyStrokeSnapshotted(
        KeyStrokeSnapshottedContext::new_started(&k('u'), vec![]),
    );

    statistics_manager.consume_event(&event);

    assert_eq!(
        statistics_manager.chunk_statistics_counter(),
        &PrimitiveStatisticsCounter::new(0, 0, 0, 0)
    );
    assert_eq!(
        statistics_manager.spell_statistics_counter(),
        &PrimitiveStatisticsCounter::new(0, 0, 0, 0)
    );
    assert_eq!(
        statistics_manager.key_stroke_statistics_counter(),
        &PrimitiveStatisticsCounter::new(0, 1, 0, 0)
    );
    assert_eq!(
        statistics_manager.ideal_key_stroke_statistics_counter(),
        &PrimitiveStatisticsCounter::new(0, 0, 0, 0)
    );
}

#[test]
fn consume_key_stroke_snapshotted_event_started_with_wrong_stroke_update_statistics_manager() {
    let mut statistics_manager = StatisticsManager::new();
    let event =
        StatisticalEvent::KeyStrokeSnapshotted(KeyStrokeSnapshottedContext::new_started(
            &k('u'),
            vec![k('y'), k('i')],
        ));

    statistics_manager.consume_event(&event);

    assert_eq!(
        statistics_manager.chunk_statistics_counter(),
        &PrimitiveStatisticsCounter::new(0, 0, 0, 0)
    );
    assert_eq!(
        statistics_manager.spell_statistics_counter(),
        &PrimitiveStatisticsCounter::new(0, 0, 0, 0)
    );
    assert_eq!(
        statistics_manager.key_stroke_statistics_counter(),
        &PrimitiveStatisticsCounter::new(0, 1, 0, 2)
    );
    assert_eq!(
        statistics_manager.ideal_key_stroke_statistics_counter(),
        &PrimitiveStatisticsCounter::new(0, 0, 0, 2)
    );
}

#[test]
fn consume_inflight_spell_snapshotted_event_without_wrong_stroke_with_single_spell_update_display_string(
) {
    let mut display_string_builder = DisplayStringBuilder::new();
    let event =
        StatisticalEvent::InflightSpellSnapshotted(InflightSpellSnapshottedContext::new(
            ChunkSpell::new(sp("ょ")),
            ChunkSpellCursorPosition::DoubleSecond,
            vec![],
        ));

    display_string_builder.consume_event(event);

    assert_eq!(display_string_builder.spell().wrong_positions(), &Vec::<usize>::new());
    assert_eq!(
        display_string_builder.spell().cursor_position(),
        SpellCursorPosition::Single(0)
    );
}

#[test]
fn consume_inflight_spell_snapshotted_event_without_wrong_stroke_with_double_spell_update_display_string(
) {
    let mut display_string_builder = DisplayStringBuilder::new();
    let event =
        StatisticalEvent::InflightSpellSnapshotted(InflightSpellSnapshottedContext::new(
            ChunkSpell::new(sp("きょ")),
            ChunkSpellCursorPosition::DoubleCombined,
            vec![],
        ));

    display_string_builder.consume_event(event);

    assert_eq!(display_string_builder.spell().wrong_positions(), &Vec::<usize>::new());
    assert_eq!(
        display_string_builder.spell().cursor_position(),
        SpellCursorPosition::Double(0, 1)
    );
}

#[test]
fn consume_inflight_spell_snapshotted_event_with_wrong_stroke_with_single_spell_update_display_string(
) {
    let mut display_string_builder = DisplayStringBuilder::new();
    let event =
        StatisticalEvent::InflightSpellSnapshotted(InflightSpellSnapshottedContext::new(
            ChunkSpell::new(sp("あ")),
            ChunkSpellCursorPosition::Single,
            vec![k('y'), k('i')],
        ));

    display_string_builder.consume_event(event);

    assert_eq!(display_string_builder.spell().wrong_positions(), &[0]);
    assert_eq!(
        display_string_builder.spell().cursor_position(),
        SpellCursorPosition::Single(0)
    );
}

#[test]
fn consume_inflight_spell_snapshotted_event_with_wrong_stroke_with_double_spell_update_display_string(
) {
    let mut display_string_builder = DisplayStringBuilder::new();
    let event =
        StatisticalEvent::InflightSpellSnapshotted(InflightSpellSnapshottedContext::new(
            ChunkSpell::new(sp("きょ")),
            ChunkSpellCursorPosition::DoubleCombined,
            vec![k('y'), k('i')],
        ));

    display_string_builder.consume_event(event);

    assert_eq!(display_string_builder.spell().wrong_positions(), &[0, 1]);
    assert_eq!(
        display_string_builder.spell().cursor_position(),
        SpellCursorPosition::Double(0, 1)
    );
}

#[test]
fn consume_inflight_spell_snapshotted_event_without_wrong_stroke_with_single_spell_update_statistics_manager(
) {
    let mut statistics_manager = StatisticsManager::new();
    let event =
        StatisticalEvent::InflightSpellSnapshotted(InflightSpellSnapshottedContext::new(
            ChunkSpell::new(sp("ょ")),
            ChunkSpellCursorPosition::DoubleSecond,
            vec![],
        ));

    statistics_manager.consume_event(&event);

    assert_eq!(
        statistics_manager.chunk_statistics_counter(),
        &PrimitiveStatisticsCounter::new(0, 0, 0, 0)
    );
    assert_eq!(
        statistics_manager.spell_statistics_counter(),
        &PrimitiveStatisticsCounter::new(0, 0, 0, 0)
    );
    assert_eq!(
        statistics_manager.key_stroke_statistics_counter(),
        &PrimitiveStatisticsCounter::new(0, 0, 0, 0)
    );
    assert_eq!(
        statistics_manager.ideal_key_stroke_statistics_counter(),
        &PrimitiveStatisticsCounter::new(0, 0, 0, 0)
    );
}

#[test]
fn consume_inflight_spell_snapshotted_event_without_wrong_stroke_with_double_spell_update_statistics_manager(
) {
    let mut statistics_manager = StatisticsManager::new();
    let event =
        StatisticalEvent::InflightSpellSnapshotted(InflightSpellSnapshottedContext::new(
            ChunkSpell::new(sp("きょ")),
            ChunkSpellCursorPosition::DoubleCombined,
            vec![],
        ));

    statistics_manager.consume_event(&event);

    assert_eq!(
        statistics_manager.chunk_statistics_counter(),
        &PrimitiveStatisticsCounter::new(0, 0, 0, 0)
    );
    assert_eq!(
        statistics_manager.spell_statistics_counter(),
        &PrimitiveStatisticsCounter::new(0, 0, 0, 0)
    );
    assert_eq!(
        statistics_manager.key_stroke_statistics_counter(),
        &PrimitiveStatisticsCounter::new(0, 0, 0, 0)
    );
    assert_eq!(
        statistics_manager.ideal_key_stroke_statistics_counter(),
        &PrimitiveStatisticsCounter::new(0, 0, 0, 0)
    );
}

#[test]
fn consume_inflight_spell_snapshotted_event_with_wrong_stroke_with_single_spell_update_statistics_manager(
) {
    let mut statistics_manager = StatisticsManager::new();
    let event =
        StatisticalEvent::InflightSpellSnapshotted(InflightSpellSnapshottedContext::new(
            ChunkSpell::new(sp("あ")),
            ChunkSpellCursorPosition::Single,
            vec![k('y'), k('i')],
        ));

    statistics_manager.consume_event(&event);

    assert_eq!(
        statistics_manager.chunk_statistics_counter(),
        &PrimitiveStatisticsCounter::new(0, 0, 0, 0)
    );
    assert_eq!(
        statistics_manager.spell_statistics_counter(),
        &PrimitiveStatisticsCounter::new(0, 0, 0, 2)
    );
    assert_eq!(
        statistics_manager.key_stroke_statistics_counter(),
        &PrimitiveStatisticsCounter::new(0, 0, 0, 0)
    );
    assert_eq!(
        statistics_manager.ideal_key_stroke_statistics_counter(),
        &PrimitiveStatisticsCounter::new(0, 0, 0, 0)
    );
}

#[test]
fn consume_inflight_spell_snapshotted_event_with_wrong_stroke_with_double_spell_update_statistics_manager(
) {
    let mut statistics_manager = StatisticsManager::new();
    let event =
        StatisticalEvent::InflightSpellSnapshotted(InflightSpellSnapshottedContext::new(
            ChunkSpell::new(sp("きょ")),
            ChunkSpellCursorPosition::DoubleCombined,
            vec![k('y'), k('i')],
        ));

    statistics_manager.consume_event(&event);

    assert_eq!(
        statistics_manager.chunk_statistics_counter(),
        &PrimitiveStatisticsCounter::new(0, 0, 0, 0)
    );
    assert_eq!(
        statistics_manager.spell_statistics_counter(),
        &PrimitiveStatisticsCounter::new(0, 0, 0, 4)
    );
    assert_eq!(
        statistics_manager.key_stroke_statistics_counter(),
        &PrimitiveStatisticsCounter::new(0, 0, 0, 0)
    );
    assert_eq!(
        statistics_manager.ideal_key_stroke_statistics_counter(),
        &PrimitiveStatisticsCounter::new(0, 0, 0, 0)
    );
}

#[test]
fn consume_spell_deemed_finished_event_without_wrong_stroke_update_display_string() {
    let mut display_string_builder = DisplayStringBuilder::new();
    let event = StatisticalEvent::SpellDeemedFinished(SpellFinishedContext::new(
        ChunkSpell::new(sp("きょ")),
        0,
    ));

    display_string_builder.consume_event(event);

    // SpellDeemedFinished event solely does not update public method result.
    display_string_builder.consume_event(StatisticalEvent::InflightSpellSnapshotted(
        InflightSpellSnapshottedContext::new(
            ChunkSpell::new(sp("あ")),
            ChunkSpellCursorPosition::Single,
            vec![],
        ),
    ));
    assert_eq!(
        display_string_builder.spell().cursor_position(),
        SpellCursorPosition::Single(2)
    );
}

#[test]
fn consume_spell_deemed_finished_event_with_wrong_stroke_update_display_string() {
    let mut display_string_builder = DisplayStringBuilder::new();
    let event = StatisticalEvent::SpellDeemedFinished(SpellFinishedContext::new(
        ChunkSpell::new(sp("きょ")),
        2,
    ));

    display_string_builder.consume_event(event);

    // SpellDeemedFinished event solely does not update public method result.
    display_string_builder.consume_event(StatisticalEvent::InflightSpellSnapshotted(
        InflightSpellSnapshottedContext::new(
            ChunkSpell::new(sp("あ")),
            ChunkSpellCursorPosition::Single,
            vec![],
        ),
    ));
    assert_eq!(
        display_string_builder.spell().cursor_position(),
        SpellCursorPosition::Single(2)
    );
    assert_eq!(display_string_builder.spell().wrong_positions(), &[0, 1]);
}

#[test]
fn consume_ideal_key_stroke_deemed_finished_event_without_wrong_stroke_update_statistics_manager(
) {
    let mut statistics_manager = StatisticsManager::new();
    let event = StatisticalEvent::IdealKeyStrokeDeemedFinished(
        IdealKeyStrokeDeemedFinishedContext::new(0),
    );

    statistics_manager.consume_event(&event);

    assert_eq!(
        statistics_manager.chunk_statistics_counter(),
        &PrimitiveStatisticsCounter::new(0, 0, 0, 0)
    );
    assert_eq!(
        statistics_manager.spell_statistics_counter(),
        &PrimitiveStatisticsCounter::new(0, 0, 0, 0)
    );
    assert_eq!(
        statistics_manager.key_stroke_statistics_counter(),
        &PrimitiveStatisticsCounter::new(0, 0, 0, 0)
    );
    assert_eq!(
        statistics_manager.ideal_key_stroke_statistics_counter(),
        &PrimitiveStatisticsCounter::new(1, 0, 1, 0)
    );
}

#[test]
fn consume_ideal_key_stroke_deemed_finished_event_with_wrong_stroke_update_statistics_manager()
{
    let mut statistics_manager = StatisticsManager::new();
    let event = StatisticalEvent::IdealKeyStrokeDeemedFinished(
        IdealKeyStrokeDeemedFinishedContext::new(2),
    );

    statistics_manager.consume_event(&event);

    assert_eq!(
        statistics_manager.chunk_statistics_counter(),
        &PrimitiveStatisticsCounter::new(0, 0, 0, 0)
    );
    assert_eq!(
        statistics_manager.spell_statistics_counter(),
        &PrimitiveStatisticsCounter::new(0, 0, 0, 0)
    );
    assert_eq!(
        statistics_manager.key_stroke_statistics_counter(),
        &PrimitiveStatisticsCounter::new(0, 0, 0, 0)
    );
    assert_eq!(
        statistics_manager.ideal_key_stroke_statistics_counter(),
        &PrimitiveStatisticsCounter::new(1, 0, 0, 0)
    );
}
