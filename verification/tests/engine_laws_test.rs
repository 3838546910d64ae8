use typing_engine::statistics::lap_statistics::{LapInfo, PrimitiveLapStatisticsBuilder, SingleFinishedLapInfo};
use typing_engine::{
    Duration, EntitySummaryStatistics, KeyStrokeChar, LapRequest, NonZeroUsize, QueryRequest, SpellString,
    TypingEngine, TypingEngineErrorKind, VocabularyEntry, VocabularyOrder, VocabularyQuantifier,
    VocabularySeparator, VocabularySpellElement,
};

fn sp(s: &str) -> SpellString {
    SpellString::from_str(s).unwrap()
}

fn k(c: char) -> KeyStrokeChar {
    KeyStrokeChar::new(c).unwrap()
}

fn single_vocabulary() -> Vec<VocabularyEntry> {
    vec![VocabularyEntry::new(String::from("阿"), vec![VocabularySpellElement::Normal(sp("あ"))]).unwrap()]
}

fn ready_engine(vocabularies: &[VocabularyEntry]) -> TypingEngine {
    let refs: Vec<&VocabularyEntry> = vocabularies.iter().collect();
    let mut engine = TypingEngine::new();
    engine
        .init(QueryRequest::new(
            &refs,
            VocabularyQuantifier::Vocabulary(NonZeroUsize::new(1).unwrap()),
            VocabularySeparator::Nothing,
            VocabularyOrder::InOrder,
        ))
        .unwrap();
    engine
}

#[test]
fn lap_times_add_up_to_the_elapsed_time_of_the_last_lap() {
    let laps = vec![
        SingleFinishedLapInfo::new(Duration::from_millis(200), 1, 1, 0, 0, 0),
        SingleFinishedLapInfo::new(Duration::from_millis(450), 3, 3, 1, 0, 1),
        SingleFinishedLapInfo::new(Duration::from_millis(700), 5, 5, 2, 1, 2),
    ];
    let info = LapInfo::new(laps, vec![]);
    let lap_times = info.lap_times();
    assert_eq!(
        lap_times,
        vec![Duration::from_millis(200), Duration::from_millis(250), Duration::from_millis(250)]
    );
    let mut sum = Duration::zero();
    for t in lap_times.iter() {
        sum = sum.saturating_add(t);
    }
    assert_eq!(sum, Duration::from_millis(700));
}

#[test]
fn lap_time_is_zero_when_a_lap_ends_before_the_previous_one() {
    let laps = vec![
        SingleFinishedLapInfo::new(Duration::from_millis(300), 1, 1, 0, 0, 0),
        SingleFinishedLapInfo::new(Duration::from_millis(100), 3, 3, 1, 0, 1),
    ];
    let info = LapInfo::new(laps, vec![]);
    assert_eq!(info.lap_times(), vec![Duration::from_millis(300), Duration::zero()]);
}

#[test]
fn laps_end_every_given_number_of_targets() {
    let mut builder = PrimitiveLapStatisticsBuilder::new(0, 2, NonZeroUsize::new(5), Some(vec![]), vec![]);
    assert_eq!(builder.on_target_add(8), Some(vec![3, 8]));
    assert_eq!(builder.whole_count(), 10);
    assert_eq!(builder.on_target_add(4), None);
    assert_eq!(builder.on_target_add(1), Some(vec![1]));
}

#[test]
fn laps_are_not_counted_for_a_kind_they_are_not_taken_by() {
    let mut builder = PrimitiveLapStatisticsBuilder::new(0, 0, None, None, vec![]);
    assert_eq!(builder.on_target_add(10), None);
    assert_eq!(builder.whole_count(), 10);
}

#[test]
fn summaries_combine_in_either_order() {
    let a = EntitySummaryStatistics::new(10, 7, 5, 3);
    let b = EntitySummaryStatistics::new(4, 2, 1, 6);
    let ab = a.combined(b);
    let ba = b.combined(a);
    assert_eq!(ab, ba);
    assert_eq!(ab.whole_count(), 14);
    assert_eq!(ab.finished_count(), 9);
    assert_eq!(ab.completely_correct_count(), 6);
    assert_eq!(ab.wrong_count(), 9);
}

#[test]
fn summaries_combine_saturating() {
    let a = EntitySummaryStatistics::new(usize::MAX, 1, 1, 1);
    let b = EntitySummaryStatistics::new(5, 1, 1, 1);
    assert_eq!(a.combined(b).whole_count(), usize::MAX);
}

#[test]
fn engine_refuses_to_start_before_init() {
    let mut engine = TypingEngine::new();
    let e = engine.start().unwrap_err();
    assert_eq!(e.kind(), TypingEngineErrorKind::MustBeInitialized);
    assert_eq!(e.as_str(), "not initialized");
}

#[test]
fn engine_refuses_to_append_a_query_before_init() {
    let vocabularies = single_vocabulary();
    let refs: Vec<&VocabularyEntry> = vocabularies.iter().collect();
    let mut engine = TypingEngine::new();
    let e = engine
        .append_query(QueryRequest::new(
            &refs,
            VocabularyQuantifier::Vocabulary(NonZeroUsize::new(1).unwrap()),
            VocabularySeparator::Nothing,
            VocabularyOrder::InOrder,
        ))
        .unwrap_err();
    assert_eq!(e.kind(), TypingEngineErrorKind::MustBeInitialized);
}

#[test]
fn engine_refuses_key_strokes_before_start() {
    let vocabularies = single_vocabulary();
    let mut engine = ready_engine(&vocabularies);
    let e = engine.stroke_key_with_elapsed_time(k('a'), Duration::from_millis(10)).unwrap_err();
    assert_eq!(e.kind(), TypingEngineErrorKind::MustBeStarted);
    assert_eq!(e.as_str(), "not started");
    let e = engine.construct_result(LapRequest::Spell(NonZeroUsize::new(1).unwrap())).unwrap_err();
    assert_eq!(e.kind(), TypingEngineErrorKind::MustBeStarted);
    assert!(engine.construct_display_info(LapRequest::Spell(NonZeroUsize::new(1).unwrap())).is_err());
}

#[test]
fn engine_refuses_key_strokes_after_finish() {
    let vocabularies = single_vocabulary();
    let mut engine = ready_engine(&vocabularies);
    engine.start().unwrap();
    assert_eq!(engine.stroke_key_with_elapsed_time(k('a'), Duration::from_millis(100)), Ok(true));
    let e = engine.stroke_key_with_elapsed_time(k('a'), Duration::from_millis(200)).unwrap_err();
    assert_eq!(e.kind(), TypingEngineErrorKind::AlreadyFinished);
    assert_eq!(e.as_str(), "already finished");
}

#[test]
fn engine_reports_a_wrong_key_stroke() {
    let vocabularies = single_vocabulary();
    let mut engine = ready_engine(&vocabularies);
    engine.start().unwrap();
    assert_eq!(engine.stroke_key_with_elapsed_time(k('i'), Duration::from_millis(50)), Ok(false));
    assert_eq!(engine.stroke_key_with_elapsed_time(k('a'), Duration::from_millis(100)), Ok(true));
    let result = engine.construct_result(LapRequest::Spell(NonZeroUsize::new(1).unwrap())).unwrap();
    assert_eq!(result.summary().key_stroke().wrong_count(), 1);
    assert_eq!(result.summary().key_stroke().completely_correct_count(), 0);
    assert_eq!(result.total_time(), Duration::from_millis(100));
}

#[test]
fn engine_refuses_an_empty_query() {
    let mut engine = TypingEngine::new();
    let refs: Vec<&VocabularyEntry> = vec![];
    let e = engine
        .init(QueryRequest::new(
            &refs,
            VocabularyQuantifier::Vocabulary(NonZeroUsize::new(1).unwrap()),
            VocabularySeparator::Nothing,
            VocabularyOrder::InOrder,
        ))
        .unwrap_err();
    assert_eq!(e.kind(), TypingEngineErrorKind::QueryNotConstructed);
    assert_eq!(e.as_str(), "query not constructed");
}

#[test]
fn key_stroke_char_accepts_only_displayable_ascii() {
    assert!(KeyStrokeChar::new('a').is_ok());
    assert!(KeyStrokeChar::new('~').is_ok());
    assert!(KeyStrokeChar::new(' ').is_ok());
    assert!(KeyStrokeChar::new('\n').is_err());
    assert!(KeyStrokeChar::new('あ').is_err());
}

#[test]
fn errors_describe_themselves() {
    let e = KeyStrokeChar::new('あ').unwrap_err();
    assert_eq!(e.message(), "cannot use as a key stroke");
    let e = typing_engine::KeyStrokeString::from_chars(vec!['a', 'あ']).unwrap_err();
    assert_eq!(e.offending_char(), 'あ');
    assert_eq!(e.message(), "`あ` cannot be used as a key stroke");
    let e = SpellString::from_str("あ漢").unwrap_err();
    assert_eq!(e.c, '漢');
    assert_eq!(e.message(), "`漢` cannot be used as a spell");
    let e = typing_engine::parse_vocabulary_entry("a:b:c").unwrap_err();
    assert_eq!(e.message(), "Component count mismatch, expected 2 components separated by ':'");
    let e = typing_engine::parse_vocabulary_entry("[]a:b").unwrap_err();
    assert_eq!(e.message(), "Empty compound is not allowed");
}
