use typing_engine::chunk::candidate_unappended::{append_key_stroke_to_chunks, ChunkCandidateUnappended};
use typing_engine::query::VocabularyOrder;
use typing_engine::statistics::manager::StatisticsManager;
use typing_engine::statistics::statistical_event::{ChunkConfirmedContext, StatisticalEvent};
use typing_engine::statistics::statistics_counter::PrimitiveStatisticsCounter;
use typing_engine::SpellString;

fn chunks_of(spells: &[&str]) -> Vec<ChunkCandidateUnappended> {
    spells
        .iter()
        .map(|s| ChunkCandidateUnappended::new(SpellString::from_str(s).unwrap()))
        .collect()
}

fn wholes(chunks: &[&str], i: usize) -> Vec<String> {
    let appended = append_key_stroke_to_chunks(&chunks_of(chunks));
    let mut v: Vec<String> = appended[i]
        .key_stroke_candidates()
        .iter()
        .map(|c| c.whole_key_stroke().to_string())
        .collect();
    v.sort();
    v
}

#[test]
fn chunk_confirmed_with_many_ideal_key_strokes_finishes_them_all() {
    let mut statistics_manager = StatisticsManager::new();
    let event = StatisticalEvent::ChunkConfirmed(ChunkConfirmedContext::new(0x8000, vec![0]));

    statistics_manager.consume_event(&event);

    assert_eq!(
        statistics_manager.ideal_key_stroke_statistics_counter(),
        &PrimitiveStatisticsCounter::new(0x8000, 0, 0x8000, 0)
    );
}

#[test]
fn random_order_picks_an_index_in_the_list() {
    for len in 1..20usize {
        let i = VocabularyOrder::Random.next_vocabulary_entry_index(Some(3), len);
        assert!(i < len);
    }
}

#[test]
fn single_n_is_offered_before_a_consonant_head() {
    assert_eq!(wholes(&["ん", "う"], 0), vec!["n", "nn", "xn"]);
}

#[test]
fn last_single_n_is_not_offered() {
    assert_eq!(wholes(&["じょ", "ん"], 1), vec!["nn", "xn"]);
}

#[test]
fn small_tsu_repeats_a_consonant_head() {
    assert_eq!(wholes(&["う", "っ", "う"], 1), vec!["ltsu", "ltu", "w", "xtu"]);
}

#[test]
fn double_char_offers_dictionary_and_split_key_strokes() {
    assert_eq!(
        wholes(&["じょ"], 0),
        vec!["jilyo", "jixyo", "jo", "jyo", "zilyo", "zixyo", "zyo"]
    );
}
