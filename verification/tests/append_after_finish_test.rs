use typing_engine::{
    Duration, KeyStrokeChar, NonZeroUsize, QueryRequest, SpellString, TypingEngine, VocabularyEntry, VocabularyOrder,
    VocabularyQuantifier, VocabularySeparator, VocabularySpellElement,
};

fn entry(view: &str, spell: &str) -> VocabularyEntry {
    VocabularyEntry::new(
        String::from(view),
        vec![VocabularySpellElement::Normal(SpellString::from_str(spell).unwrap())],
    )
    .unwrap()
}

fn k(c: char) -> KeyStrokeChar {
    KeyStrokeChar::try_from(c).unwrap()
}

#[test]
fn appending_to_a_finished_session_lets_typing_go_on() {
    let mut engine = TypingEngine::new();
    let first = vec![entry("阿", "あ")];
    let first_refs: Vec<&VocabularyEntry> = first.iter().collect();
    engine
        .init(QueryRequest::new(
            &first_refs,
            VocabularyQuantifier::Vocabulary(NonZeroUsize::new(1).unwrap()),
            VocabularySeparator::Nothing,
            VocabularyOrder::InOrder,
        ))
        .unwrap();
    engine.start().unwrap();
    assert_eq!(engine.stroke_key_with_elapsed_time(k('a'), Duration::from_millis(100)), Ok(true));
    assert!(engine.stroke_key_with_elapsed_time(k('i'), Duration::from_millis(150)).is_err());

    let second = vec![entry("伊", "い")];
    let second_refs: Vec<&VocabularyEntry> = second.iter().collect();
    engine
        .append_query(QueryRequest::new(
            &second_refs,
            VocabularyQuantifier::Vocabulary(NonZeroUsize::new(1).unwrap()),
            VocabularySeparator::Nothing,
            VocabularyOrder::InOrder,
        ))
        .unwrap();

    assert_eq!(engine.stroke_key_with_elapsed_time(k('i'), Duration::from_millis(200)), Ok(true));
}
