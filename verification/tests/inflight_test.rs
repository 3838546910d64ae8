use typing_engine::chunk::inflight::{ChunkInflight, KeyStrokeResult};
use typing_engine::chunk::key_stroke_candidate::{CandidateKeyStroke, ChunkKeyStrokeCandidate, DelayedConfirmedCandidateInfo};
use typing_engine::chunk::ChunkSpell;
use typing_engine::statistics::statistical_event::SpellFinishedContext;
use typing_engine::{ActualKeyStroke, Duration, KeyStrokeChar, KeyStrokeString, SpellString};

fn sp(s: &str) -> SpellString {
    SpellString::from_str(s).unwrap()
}

fn k(c: char) -> KeyStrokeChar {
    KeyStrokeChar::new(c).unwrap()
}

fn kss(s: &str) -> KeyStrokeString {
    KeyStrokeString::from_chars(s.chars().collect()).unwrap()
}

fn cand(key_stroke: CandidateKeyStroke, constraint: Option<char>, delayed: Option<Vec<char>>) -> ChunkKeyStrokeCandidate {
    ChunkKeyStrokeCandidate::new(
        key_stroke,
        constraint.map(k),
        delayed.map(|d| DelayedConfirmedCandidateInfo::new(d.into_iter().map(k).collect())),
    )
}

#[test]
fn wrong_stroke_to_inflight_chunk() {
    let mut typed_chunk = generate_test_inflight_chunk();

    let stroke_result = typed_chunk.stroke_key(k('h'), Duration::new(1, 0));

    assertion_stroke_wrong(&stroke_result);
    assert_eq!(
        typed_chunk,
        generate_test_inflight_chunk_with_a_wrong_stroke()
    );
}

#[test]
fn correct_stroke_to_inflight_chunk_without_wrong_stroke() {
    let mut typed_chunk = generate_test_inflight_chunk();

    let stroke_result = typed_chunk.stroke_key(k('j'), Duration::new(2, 0));

    assertion_stroke_correct(&stroke_result, vec![]);
    assertion_not_finish_spell(&stroke_result);
    assertion_not_chunk_confirm(&stroke_result, &typed_chunk);
    assert_eq!(
        typed_chunk,
        generate_test_inflight_chunk_with_a_correct_stroke()
    );
}

#[test]
fn correct_stroke_to_inflight_chunk_with_wrong_stroke() {
    let mut typed_chunk = generate_test_inflight_chunk_with_a_wrong_stroke();

    let stroke_result = typed_chunk.stroke_key(k('j'), Duration::new(2, 0));

    assertion_stroke_correct(
        &stroke_result,
        vec![ActualKeyStroke::new(
            Duration::new(1, 0),
            k('h'),
            false,
        )],
    );
    assertion_not_finish_spell(&stroke_result);
    assertion_not_chunk_confirm(&stroke_result, &typed_chunk);
    assert_eq!(
        typed_chunk,
        generate_test_inflight_chunk_with_wrong_stroke_and_correct_stroke()
    );
}

#[test]
fn correct_stroke_to_inflight_chunk_finishes_spell() {
    let mut typed_chunk = generate_test_inflight_chunk_with_wrong_stroke_and_correct_stroke();

    let stroke_result = typed_chunk.stroke_key(k('i'), Duration::new(3, 0));

    assertion_stroke_correct(&stroke_result, vec![]);
    assertion_not_chunk_confirm(&stroke_result, &typed_chunk);
    assertion_finish_spell(&stroke_result, "じ", 1);
    assert_eq!(
        typed_chunk,
        ChunkInflight::new(sp("じょ"), vec![
                cand(CandidateKeyStroke::DoubleSplitted(kss("ji"), kss("lyo")), None, None),
                cand(CandidateKeyStroke::DoubleSplitted(kss("ji"), kss("xyo")), None, None),
            ], vec![
                cand(CandidateKeyStroke::Double(kss("zyo")), None, None),
                cand(CandidateKeyStroke::DoubleSplitted(kss("zi"), kss("lyo")), None, None),
                cand(CandidateKeyStroke::DoubleSplitted(kss("zi"), kss("xyo")), None, None),
                cand(CandidateKeyStroke::Double(kss("jo")), None, None),
                cand(CandidateKeyStroke::Double(kss("jyo")), None, None),
            ], cand(CandidateKeyStroke::Double(kss("jo")), None, None), vec![
                ActualKeyStroke::new(Duration::new(1, 0), k('h'), false),
                ActualKeyStroke::new(Duration::new(2, 0), k('j'), true),
                ActualKeyStroke::new(Duration::new(3, 0), k('i'), true)
            ], 2, vec![])
    );
}

#[test]
fn correct_stroke_to_inflight_chunk_confirms_chunk() {
    let mut typed_chunk = generate_test_inflight_chunk_with_wrong_stroke_and_correct_stroke();

    let stroke_result = typed_chunk.stroke_key(k('o'), Duration::new(3, 0));

    assertion_stroke_correct(&stroke_result, vec![]);
    assertion_chunk_confirm(&stroke_result, &typed_chunk, "じょ", 1, Vec::<ActualKeyStroke>::new().as_slice());
    assert_eq!(
        typed_chunk,
        generate_test_inflight_chunk_with_wrong_stroke_and_correct_stroke_and_confirmed()
    );
}

#[test]
fn correct_stroke_to_inflight_chunk_finishes_spell_and_confirms_split_chunk() {
    let mut typed_chunk = ChunkInflight::new(sp("じょ"), vec![cand(CandidateKeyStroke::DoubleSplitted(kss("ji"), kss("xyo")), None, None),], vec![
            cand(CandidateKeyStroke::Double(kss("zyo")), None, None),
            cand(CandidateKeyStroke::DoubleSplitted(kss("zi"), kss("lyo")), None, None),
            cand(CandidateKeyStroke::DoubleSplitted(kss("zi"), kss("xyo")), None, None),
            cand(CandidateKeyStroke::Double(kss("jo")), None, None),
            cand(CandidateKeyStroke::Double(kss("jyo")), None, None),
            cand(CandidateKeyStroke::DoubleSplitted(kss("ji"), kss("lyo")), None, None),
        ], cand(CandidateKeyStroke::Double(kss("jo")), None, None), vec![
            ActualKeyStroke::new(Duration::new(1, 0), k('h'), false),
            ActualKeyStroke::new(Duration::new(2, 0), k('j'), true),
            ActualKeyStroke::new(Duration::new(3, 0), k('i'), true),
            ActualKeyStroke::new(Duration::new(4, 0), k('x'), true),
            ActualKeyStroke::new(Duration::new(5, 0), k('y'), true)
        ], 4, vec![]);

    let stroke_result = typed_chunk.stroke_key(k('o'), Duration::new(6, 0));

    assertion_stroke_correct(&stroke_result, vec![]);
    assertion_chunk_confirm(&stroke_result, &typed_chunk, "ょ", 0, Vec::<ActualKeyStroke>::new().as_slice());
    assert_eq!(
        typed_chunk,
        ChunkInflight::new(sp("じょ"), vec![cand(CandidateKeyStroke::DoubleSplitted(kss("ji"), kss("xyo")), None, None),], vec![
                cand(CandidateKeyStroke::Double(kss("zyo")), None, None),
                cand(CandidateKeyStroke::DoubleSplitted(kss("zi"), kss("lyo")), None, None),
                cand(CandidateKeyStroke::DoubleSplitted(kss("zi"), kss("xyo")), None, None),
                cand(CandidateKeyStroke::Double(kss("jo")), None, None),
                cand(CandidateKeyStroke::Double(kss("jyo")), None, None),
                cand(CandidateKeyStroke::DoubleSplitted(kss("ji"), kss("lyo")), None, None),
            ], cand(CandidateKeyStroke::Double(kss("jo")), None, None), vec![
                ActualKeyStroke::new(Duration::new(1, 0), k('h'), false),
                ActualKeyStroke::new(Duration::new(2, 0), k('j'), true),
                ActualKeyStroke::new(Duration::new(3, 0), k('i'), true),
                ActualKeyStroke::new(Duration::new(4, 0), k('x'), true),
                ActualKeyStroke::new(Duration::new(5, 0), k('y'), true),
                ActualKeyStroke::new(Duration::new(6, 0), k('o'), true)
            ], 5, vec![])
    );
}

#[test]
fn correct_stroke_to_inflight_chunk_that_becomes_delayed_confirmable() {
    let mut typed_chunk = ChunkInflight::new(sp("ん"), vec![
            cand(CandidateKeyStroke::Normal(kss("n")), None, Some(vec!['j'])),
            cand(CandidateKeyStroke::Normal(kss("nn")), None, None),
            cand(CandidateKeyStroke::Normal(kss("xn")), None, None),
        ], vec![], cand(CandidateKeyStroke::Normal(kss("n")), None, Some(vec!['j'])), vec![], 0, vec![]);

    let stroke_result = typed_chunk.stroke_key(k('n'), Duration::new(1, 0));

    assertion_stroke_correct(&stroke_result, vec![]);
    assertion_not_finish_spell(&stroke_result);
    assertion_not_chunk_confirm(&stroke_result, &typed_chunk);
    assert!(typed_chunk.delayed_confirmable_candidate_index().is_some());
    assert_eq!(
        typed_chunk.delayed_confirmable_candidate_index().unwrap(),
        0
    );
    assert_eq!(
        typed_chunk,
        ChunkInflight::new(sp("ん"), vec![
                cand(CandidateKeyStroke::Normal(kss("n")), None, Some(vec!['j'])),
                cand(CandidateKeyStroke::Normal(kss("nn")), None, None),
            ], vec![cand(CandidateKeyStroke::Normal(kss("xn")), None, None),], cand(CandidateKeyStroke::Normal(kss("n")), None, Some(vec!['j'])), vec![ActualKeyStroke::new(
                Duration::new(1, 0),
                k('n'),
                true
            )], 1, vec![]),
    );
}

#[test]
fn wrong_stroke_to_inflight_chunk_that_is_delayed_confirmable() {
    let mut typed_chunk = ChunkInflight::new(sp("ん"), vec![
            cand(CandidateKeyStroke::Normal(kss("n")), None, Some(vec!['j'])),
            cand(CandidateKeyStroke::Normal(kss("nn")), None, None),
        ], vec![cand(CandidateKeyStroke::Normal(kss("xn")), None, None),], cand(CandidateKeyStroke::Normal(kss("n")), None, Some(vec!['j'])), vec![ActualKeyStroke::new(
            Duration::new(1, 0),
            k('n'),
            true
        )], 1, vec![]);

    let stroke_result = typed_chunk.stroke_key(k('m'), Duration::new(2, 0));

    assertion_stroke_wrong(&stroke_result);
    assert_eq!(
        typed_chunk.pending_key_strokes(),
        vec![ActualKeyStroke::new(
            Duration::new(2, 0),
            k('m'),
            false
        )]
    );
    assert_eq!(
        typed_chunk,
        ChunkInflight::new(sp("ん"), vec![
                cand(CandidateKeyStroke::Normal(kss("n")), None, Some(vec!['j'])),
                cand(CandidateKeyStroke::Normal(kss("nn")), None, None),
            ], vec![cand(CandidateKeyStroke::Normal(kss("xn")), None, None),], cand(CandidateKeyStroke::Normal(kss("n")), None, Some(vec!['j'])), vec![ActualKeyStroke::new(
                Duration::new(1, 0),
                k('n'),
                true
            )], 1, vec![ActualKeyStroke::new(
                Duration::new(2, 0),
                k('m'),
                false
            )])
    );
}

#[test]
fn correct_stroke_to_inflight_chunk_confirms_delayed_confirm_candidate() {
    let mut typed_chunk = ChunkInflight::new(sp("ん"), vec![
            cand(CandidateKeyStroke::Normal(kss("n")), None, Some(vec!['j'])),
            cand(CandidateKeyStroke::Normal(kss("nn")), None, None),
        ], vec![cand(CandidateKeyStroke::Normal(kss("xn")), None, None),], cand(CandidateKeyStroke::Normal(kss("n")), None, Some(vec!['j'])), vec![ActualKeyStroke::new(
            Duration::new(1, 0),
            k('n'),
            true
        )], 1, vec![ActualKeyStroke::new(
            Duration::new(2, 0),
            k('m'),
            false
        )]);

    let stroke_result = typed_chunk.stroke_key(k('j'), Duration::new(3, 0));

    assertion_stroke_correct_delayed_confirm(&stroke_result);
    assertion_chunk_confirm(
        &stroke_result,
        &typed_chunk,
        "ん",
        0,
        vec![
            ActualKeyStroke::new(Duration::new(2, 0), k('m'), false),
            ActualKeyStroke::new(Duration::new(3, 0), k('j'), true),
        ]
        .as_slice(),
    );
    assert!(stroke_result.wrong_key_strokes().is_none());

    assert_eq!(
        typed_chunk,
        ChunkInflight::new(sp("ん"), vec![cand(CandidateKeyStroke::Normal(kss("n")), None, Some(vec!['j'])),], vec![
                cand(CandidateKeyStroke::Normal(kss("xn")), None, None),
                cand(CandidateKeyStroke::Normal(kss("nn")), None, None),
            ], cand(CandidateKeyStroke::Normal(kss("n")), None, Some(vec!['j'])), vec![ActualKeyStroke::new(
                Duration::new(1, 0),
                k('n'),
                true
            )], 1, vec![])
    );
}

#[test]
fn correct_stroke_to_inflight_chunk_confirms_not_delayed_confirm_candidate() {
    let mut typed_chunk = ChunkInflight::new(sp("ん"), vec![
            cand(CandidateKeyStroke::Normal(kss("n")), None, Some(vec!['j'])),
            cand(CandidateKeyStroke::Normal(kss("nn")), None, None),
        ], vec![cand(CandidateKeyStroke::Normal(kss("xn")), None, None),], cand(CandidateKeyStroke::Normal(kss("n")), None, Some(vec!['j'])), vec![ActualKeyStroke::new(
            Duration::new(1, 0),
            k('n'),
            true
        )], 1, vec![ActualKeyStroke::new(
            Duration::new(2, 0),
            k('m'),
            false
        )]);

    let stroke_result = typed_chunk.stroke_key(k('n'), Duration::new(3, 0));

    assertion_stroke_correct(
        &stroke_result,
        vec![ActualKeyStroke::new(
            Duration::new(2, 0),
            k('m'),
            false,
        )],
    );
    assertion_chunk_confirm(&stroke_result, &typed_chunk, "ん", 1, Vec::<ActualKeyStroke>::new().as_slice());
    assert_eq!(
        typed_chunk,
        ChunkInflight::new(sp("ん"), vec![cand(CandidateKeyStroke::Normal(kss("nn")), None, None),], vec![
                cand(CandidateKeyStroke::Normal(kss("xn")), None, None),
                cand(CandidateKeyStroke::Normal(kss("n")), None, Some(vec!['j'])),
            ], cand(CandidateKeyStroke::Normal(kss("n")), None, Some(vec!['j'])), vec![
                ActualKeyStroke::new(Duration::new(1, 0), k('n'), true),
                ActualKeyStroke::new(Duration::new(2, 0), k('m'), false),
                ActualKeyStroke::new(Duration::new(3, 0), k('n'), true)
            ], 2, vec![])
    );
}

fn generate_test_inflight_chunk() -> ChunkInflight {
    ChunkInflight::new(sp("じょ"), vec![
            cand(CandidateKeyStroke::Double(kss("jo")), None, None),
            cand(CandidateKeyStroke::Double(kss("zyo")), None, None),
            cand(CandidateKeyStroke::Double(kss("jyo")), None, None),
            cand(CandidateKeyStroke::DoubleSplitted(kss("zi"), kss("lyo")), None, None),
            cand(CandidateKeyStroke::DoubleSplitted(kss("zi"), kss("xyo")), None, None),
            cand(CandidateKeyStroke::DoubleSplitted(kss("ji"), kss("lyo")), None, None),
            cand(CandidateKeyStroke::DoubleSplitted(kss("ji"), kss("xyo")), None, None),
        ], vec![], cand(CandidateKeyStroke::Double(kss("jo")), None, None), vec![], 0, vec![])
}

fn generate_test_inflight_chunk_with_a_wrong_stroke() -> ChunkInflight {
    ChunkInflight::new(sp("じょ"), vec![
            cand(CandidateKeyStroke::Double(kss("jo")), None, None),
            cand(CandidateKeyStroke::Double(kss("zyo")), None, None),
            cand(CandidateKeyStroke::Double(kss("jyo")), None, None),
            cand(CandidateKeyStroke::DoubleSplitted(kss("zi"), kss("lyo")), None, None),
            cand(CandidateKeyStroke::DoubleSplitted(kss("zi"), kss("xyo")), None, None),
            cand(CandidateKeyStroke::DoubleSplitted(kss("ji"), kss("lyo")), None, None),
            cand(CandidateKeyStroke::DoubleSplitted(kss("ji"), kss("xyo")), None, None),
        ], vec![], cand(CandidateKeyStroke::Double(kss("jo")), None, None), vec![ActualKeyStroke::new(
            Duration::new(1, 0),
            k('h'),
            false
        )], 0, vec![])
}

fn generate_test_inflight_chunk_with_a_correct_stroke() -> ChunkInflight {
    ChunkInflight::new(sp("じょ"), vec![
            cand(CandidateKeyStroke::Double(kss("jo")), None, None),
            cand(CandidateKeyStroke::Double(kss("jyo")), None, None),
            cand(CandidateKeyStroke::DoubleSplitted(kss("ji"), kss("lyo")), None, None),
            cand(CandidateKeyStroke::DoubleSplitted(kss("ji"), kss("xyo")), None, None),
        ], vec![
            cand(CandidateKeyStroke::Double(kss("zyo")), None, None),
            cand(CandidateKeyStroke::DoubleSplitted(kss("zi"), kss("lyo")), None, None),
            cand(CandidateKeyStroke::DoubleSplitted(kss("zi"), kss("xyo")), None, None),
        ], cand(CandidateKeyStroke::Double(kss("jo")), None, None), vec![ActualKeyStroke::new(
            Duration::new(2, 0),
            k('j'),
            true
        )], 1, vec![])
}

fn generate_test_inflight_chunk_with_wrong_stroke_and_correct_stroke() -> ChunkInflight {
    ChunkInflight::new(sp("じょ"), vec![
            cand(CandidateKeyStroke::Double(kss("jo")), None, None),
            cand(CandidateKeyStroke::Double(kss("jyo")), None, None),
            cand(CandidateKeyStroke::DoubleSplitted(kss("ji"), kss("lyo")), None, None),
            cand(CandidateKeyStroke::DoubleSplitted(kss("ji"), kss("xyo")), None, None),
        ], vec![
            cand(CandidateKeyStroke::Double(kss("zyo")), None, None),
            cand(CandidateKeyStroke::DoubleSplitted(kss("zi"), kss("lyo")), None, None),
            cand(CandidateKeyStroke::DoubleSplitted(kss("zi"), kss("xyo")), None, None),
        ], cand(CandidateKeyStroke::Double(kss("jo")), None, None), vec![
            ActualKeyStroke::new(Duration::new(1, 0), k('h'), false),
            ActualKeyStroke::new(Duration::new(2, 0), k('j'), true)
        ], 1, vec![])
}

fn generate_test_inflight_chunk_with_wrong_stroke_and_correct_stroke_and_confirmed() -> ChunkInflight
{
    ChunkInflight::new(sp("じょ"), vec![cand(CandidateKeyStroke::Double(kss("jo")), None, None),], vec![
            cand(CandidateKeyStroke::Double(kss("zyo")), None, None),
            cand(CandidateKeyStroke::DoubleSplitted(kss("zi"), kss("lyo")), None, None),
            cand(CandidateKeyStroke::DoubleSplitted(kss("zi"), kss("xyo")), None, None),
            cand(CandidateKeyStroke::Double(kss("jyo")), None, None),
            cand(CandidateKeyStroke::DoubleSplitted(kss("ji"), kss("lyo")), None, None),
            cand(CandidateKeyStroke::DoubleSplitted(kss("ji"), kss("xyo")), None, None),
        ], cand(CandidateKeyStroke::Double(kss("jo")), None, None), vec![
            ActualKeyStroke::new(Duration::new(1, 0), k('h'), false),
            ActualKeyStroke::new(Duration::new(2, 0), k('j'), true),
            ActualKeyStroke::new(Duration::new(3, 0), k('o'), true)
        ], 2, vec![])
}

fn assertion_stroke_wrong(stroke_result: &KeyStrokeResult) {
    assert!(!stroke_result.is_correct());
    assert!(stroke_result.correct_context().is_none());
    assert!(stroke_result.wrong_key_strokes().is_none());
}

fn assertion_stroke_correct(
    stroke_result: &KeyStrokeResult,
    wrong_key_strokes: Vec<ActualKeyStroke>,
) {
    assert!(stroke_result.is_correct());
    assert!(stroke_result.correct_context().is_some());
    assert!(stroke_result.wrong_key_strokes().is_some());
    assert_eq!(
        stroke_result.wrong_key_strokes().unwrap(),
        wrong_key_strokes.as_slice()
    );
}

fn assertion_stroke_correct_delayed_confirm(stroke_result: &KeyStrokeResult) {
    assert!(stroke_result.is_correct());
    assert!(stroke_result.correct_context().is_some());
    assert!(stroke_result.wrong_key_strokes().is_none());
}

fn assertion_not_finish_spell(stroke_result: &KeyStrokeResult) {
    assert!(stroke_result
        .correct_context()
        .unwrap()
        .spell_finished_context()
        .is_none());
}

fn assertion_finish_spell(
    stroke_result: &KeyStrokeResult,
    spell: &str,
    wrong_key_strokes_count: usize,
) {
    assert!(stroke_result
        .correct_context()
        .unwrap()
        .spell_finished_context()
        .is_some());
    assert_eq!(
        stroke_result
            .correct_context()
            .unwrap()
            .spell_finished_context()
            .as_ref()
            .unwrap()
            .clone(),
        SpellFinishedContext::new(
            ChunkSpell::new(sp(spell)),
            wrong_key_strokes_count
        )
    );
}

fn assertion_not_chunk_confirm(stroke_result: &KeyStrokeResult, typed_chunk: &ChunkInflight) {
    assert!(stroke_result
        .correct_context()
        .unwrap()
        .chunk_confirmation()
        .is_none());
    assert!(!typed_chunk.is_confirmed());
}

fn assertion_chunk_confirm(
    stroke_result: &KeyStrokeResult,
    typed_chunk: &ChunkInflight,
    spell: &str,
    wrong_key_strokes_count: usize,
    pending_key_strokes_for_next_chunk: &[ActualKeyStroke],
) {
    assertion_finish_spell(stroke_result, spell, wrong_key_strokes_count);
    assert!(stroke_result
        .correct_context()
        .unwrap()
        .chunk_confirmation()
        .is_some());
    assert_eq!(
        stroke_result
            .correct_context()
            .unwrap()
            .chunk_confirmation()
            .as_ref()
            .unwrap()
            .as_slice(),
        pending_key_strokes_for_next_chunk
    );
    assert!(typed_chunk.is_confirmed());
}
