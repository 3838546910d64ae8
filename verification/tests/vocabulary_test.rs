use typing_engine::chunk::candidate_unappended::ChunkCandidateUnappended;
use typing_engine::vocabulary::{convert_spell_positions_to_view_positions, ViewPosition};
use typing_engine::{NonZeroUsize, SpellString, VocabularyEntry, VocabularySpellElement};

fn sp(s: &str) -> SpellString {
    SpellString::from_str(s).unwrap()
}

fn ve(view: &str, spells: &[(&str, usize)]) -> VocabularyEntry {
    VocabularyEntry::new(
        String::from(view),
        spells
            .iter()
            .map(|(s, n)| {
                if *n == 0 {
                    VocabularySpellElement::Normal(sp(s))
                } else {
                    VocabularySpellElement::Compound((sp(s), NonZeroUsize::new(*n).unwrap()))
                }
            })
            .collect(),
    )
    .unwrap()
}

#[test]
fn construct_chunks_from_vocabulary_entry_1() {
    let ve = ve("今日", &[("きょう", 2)]);
    assert_eq!(ve.construct_chunks(), vec![ChunkCandidateUnappended::new(sp("きょ")), ChunkCandidateUnappended::new(sp("う"))]);
}

#[test]
fn construct_chunks_from_vocabulary_entry_2() {
    let ve = ve(" 　", &[(" ", 0), ("　", 0)]);
    assert_eq!(ve.construct_chunks(), vec![ChunkCandidateUnappended::new(sp(" ")), ChunkCandidateUnappended::new(sp("　"))]);
}

#[test]
fn construct_chunks_from_vocabulary_entry_3() {
    let ve = ve("big", &[("b", 0), ("i", 0), ("g", 0)]);
    assert_eq!(
        ve.construct_chunks(),
        vec![
            ChunkCandidateUnappended::new(sp("b")),
            ChunkCandidateUnappended::new(sp("i")),
            ChunkCandidateUnappended::new(sp("g"))
        ]
    );
}

#[test]
fn convert_spell_positions_to_view_positions_1() {
    let vp = convert_spell_positions_to_view_positions(
        &vec![0, 1, 2],
        &vec![
            ViewPosition::Compound(vec![0, 1, 2, 3]),
            ViewPosition::Compound(vec![0, 1, 2, 3]),
            ViewPosition::Normal(4),
        ],
    );

    assert_eq!(vp, vec![0, 1, 2, 3, 0, 1, 2, 3, 4]);
}
