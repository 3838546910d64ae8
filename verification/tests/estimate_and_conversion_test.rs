use std::convert::TryFrom;

use typing_engine::chunk::candidate_unappended::ChunkCandidateUnappended;
use typing_engine::{KeyStrokeString, SpellString};

fn estimate(s: &str) -> usize {
    ChunkCandidateUnappended::new(SpellString::from_str(s).unwrap()).estimate_min_key_stroke_count()
}

#[test]
fn estimate_of_ascii_chunk_is_one() {
    assert_eq!(estimate("a"), 1);
}

#[test]
fn estimate_of_small_tsu_is_one() {
    assert_eq!(estimate("っ"), 1);
}

#[test]
fn estimate_of_single_char_is_shortest_dictionary_entry() {
    assert_eq!(estimate("あ"), 1);
    assert_eq!(estimate("し"), 2);
    assert_eq!(estimate("ん"), 1);
    assert_eq!(estimate("ぃ"), 2);
    assert_eq!(estimate("ゃ"), 3);
    assert_eq!(estimate("、"), 1);
}

#[test]
fn estimate_of_double_char_is_shortest_dictionary_entry() {
    assert_eq!(estimate("きゃ"), 3);
    assert_eq!(estimate("うぃ"), 2);
    assert_eq!(estimate("つぁ"), 3);
}

#[test]
fn key_stroke_string_try_from_accepts_ascii() {
    let s = KeyStrokeString::try_from("ab c".to_string()).unwrap();
    assert_eq!(s.to_string(), "ab c");
}

#[test]
fn key_stroke_string_try_from_reports_first_invalid_char() {
    let e = KeyStrokeString::try_from("abあい".to_string()).unwrap_err();
    assert_eq!(e.c, 'あ');
}

#[test]
fn spell_string_try_from_accepts_spell_chars() {
    let s = SpellString::try_from("きょう".to_string()).unwrap();
    assert_eq!(s.to_string(), "きょう");
}

#[test]
fn spell_string_try_from_reports_first_invalid_char() {
    let e = SpellString::try_from("か\u{1}\u{2}".to_string()).unwrap_err();
    assert_eq!(e.c, '\u{1}');
}
