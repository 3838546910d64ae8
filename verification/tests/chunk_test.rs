use typing_engine::chunk::inflight::ChunkInflight;
use typing_engine::chunk::unprocessed::ChunkUnprocessed;
use typing_engine::chunk::candidate_unappended::{append_key_stroke_to_chunks, ChunkCandidateUnappended};
use typing_engine::chunk::key_stroke_candidate::{CandidateKeyStroke, ChunkKeyStrokeCandidate, DelayedConfirmedCandidateInfo};
use typing_engine::chunk::ChunkElementIndex;
use typing_engine::{ActualKeyStroke, Duration, KeyStrokeChar, KeyStrokeString, NonZeroUsize, SpellString};

fn sp(s: &str) -> SpellString {
    SpellString::from_str(s).unwrap()
}

fn k(c: char) -> KeyStrokeChar {
    KeyStrokeChar::new(c).unwrap()
}

fn kss(s: &str) -> KeyStrokeString {
    KeyStrokeString::from_chars(s.chars().collect()).unwrap()
}

fn cand(key_stroke: CandidateKeyStroke, constraint: Option<char>, delayed: Option<Vec<char>>) -> ChunkKeyStrokeCandidate {
    ChunkKeyStrokeCandidate::new(
        key_stroke,
        constraint.map(k),
        delayed.map(|d| DelayedConfirmedCandidateInfo::new(d.into_iter().map(k).collect())),
    )
}

#[test]
fn unprocessed_strict_key_stroke_count_1() {
    let mut chunk = ChunkUnprocessed::new(sp("じょ"), vec![
            cand(CandidateKeyStroke::Double(kss("jo")), None, None),
            cand(CandidateKeyStroke::Double(kss("zyo")), None, None),
            cand(CandidateKeyStroke::Double(kss("jyo")), None, None),
            cand(CandidateKeyStroke::DoubleSplitted(kss("zi"), kss("lyo")), None, None),
            cand(CandidateKeyStroke::DoubleSplitted(kss("zi"), kss("xyo")), None, None),
            cand(CandidateKeyStroke::DoubleSplitted(kss("ji"), kss("lyo")), None, None),
            cand(CandidateKeyStroke::DoubleSplitted(kss("ji"), kss("xyo")), None, None),
        ], cand(CandidateKeyStroke::Double(kss("jo")), None, None));

    chunk.strict_key_stroke_count(NonZeroUsize::new(1).unwrap());

    assert_eq!(
        chunk,
        ChunkUnprocessed::new(sp("じょ"), vec![
                cand(CandidateKeyStroke::Double(kss("j")), None, None),
                cand(CandidateKeyStroke::Double(kss("z")), None, None),
            ], cand(CandidateKeyStroke::Double(kss("j")), None, None))
    )
}

#[test]
fn unprocessed_strict_key_stroke_count_2() {
    let mut chunk = ChunkUnprocessed::new(sp("ん"), vec![
            cand(CandidateKeyStroke::Normal(kss("n")), None, Some(vec!['j', 'z'])),
            cand(CandidateKeyStroke::Normal(kss("nn")), None, None),
            cand(CandidateKeyStroke::Normal(kss("xn")), None, None),
        ], cand(CandidateKeyStroke::Normal(kss("n")), None, Some(vec!['j', 'z'])));

    chunk.strict_key_stroke_count(NonZeroUsize::new(1).unwrap());

    assert_eq!(
        chunk,
        ChunkUnprocessed::new(sp("ん"), vec![
                cand(CandidateKeyStroke::Normal(kss("n")), None, None),
                cand(CandidateKeyStroke::Normal(kss("x")), None, None)
            ], cand(CandidateKeyStroke::Normal(kss("n")), None, None))
    )
}

#[test]
fn wrong_positions_of_double_splitted() {
    let typed_chunk = ChunkInflight::new(sp("じょ"), vec![cand(CandidateKeyStroke::DoubleSplitted(kss("ji"), kss("xyo")), None, None),], vec![
            cand(CandidateKeyStroke::Double(kss("zyo")), None, None),
            cand(CandidateKeyStroke::DoubleSplitted(kss("zi"), kss("lyo")), None, None),
            cand(CandidateKeyStroke::DoubleSplitted(kss("zi"), kss("xyo")), None, None),
            cand(CandidateKeyStroke::Double(kss("jo")), None, None),
            cand(CandidateKeyStroke::Double(kss("jyo")), None, None),
            cand(CandidateKeyStroke::DoubleSplitted(kss("ji"), kss("lyo")), None, None),
        ], cand(CandidateKeyStroke::Double(kss("jo")), None, None), vec![
            ActualKeyStroke::new(Duration::new(1, 0), k('h'), false),
            ActualKeyStroke::new(Duration::new(2, 0), k('j'), true),
            ActualKeyStroke::new(Duration::new(3, 0), k('j'), false),
            ActualKeyStroke::new(Duration::new(4, 0), k('j'), false),
            ActualKeyStroke::new(Duration::new(5, 0), k('i'), true),
            ActualKeyStroke::new(Duration::new(6, 0), k('x'), true),
            ActualKeyStroke::new(Duration::new(7, 0), k('x'), false),
            ActualKeyStroke::new(Duration::new(8, 0), k('y'), true),
            ActualKeyStroke::new(Duration::new(9, 0), k('o'), true)
        ], 5, vec![]);

    assert_eq!(
        typed_chunk.wrong_key_strokes_for_correct_key_stroke_index(0),
        vec![ActualKeyStroke::new(
            Duration::new(1, 0),
            k('h'),
            false
        ),]
    );
    assert_eq!(
        typed_chunk.wrong_key_strokes_for_correct_key_stroke_index(1),
        vec![
            ActualKeyStroke::new(Duration::new(3, 0), k('j'), false),
            ActualKeyStroke::new(Duration::new(4, 0), k('j'), false),
        ]
    );
    assert_eq!(
        typed_chunk.wrong_key_strokes_for_correct_key_stroke_index(2),
        vec![]
    );
    assert_eq!(
        typed_chunk.wrong_key_strokes_for_correct_key_stroke_index(3),
        vec![ActualKeyStroke::new(
            Duration::new(7, 0),
            k('x'),
            false
        ),]
    );
    assert_eq!(
        typed_chunk.wrong_key_strokes_for_correct_key_stroke_index(4),
        vec![]
    );
    assert_eq!(
        typed_chunk.wrong_key_strokes_for_correct_key_stroke_index(5),
        vec![]
    );
    assert_eq!(
        typed_chunk.wrong_key_stroke_count_of_key_stroke_index(),
        vec![1, 2, 0, 1, 0]
    );

    assert_eq!(
        typed_chunk.wrong_key_stroke_count_of_ideal_key_stroke_index(&cand(CandidateKeyStroke::Double(kss("jo")), None, None)),
        vec![3, 1]
    );

    assert_eq!(typed_chunk.wrong_key_stroke_positions(0), vec![0, 1, 3]);

    assert_eq!(
        typed_chunk.wrong_key_stroke_count_of_element_index(ChunkElementIndex::OnlyFirst),
        0
    );
    assert_eq!(
        typed_chunk.wrong_key_strokes_of_element_index(ChunkElementIndex::OnlyFirst),
        vec![]
    );
    assert_eq!(
        typed_chunk.wrong_key_stroke_count_of_element_index(ChunkElementIndex::DoubleFirst),
        3
    );
    assert_eq!(
        typed_chunk.wrong_key_strokes_of_element_index(ChunkElementIndex::DoubleFirst),
        vec![
            ActualKeyStroke::new(Duration::new(1, 0), k('h'), false),
            ActualKeyStroke::new(Duration::new(3, 0), k('j'), false),
            ActualKeyStroke::new(Duration::new(4, 0), k('j'), false),
        ]
    );
    assert_eq!(
        typed_chunk.wrong_key_stroke_count_of_element_index(ChunkElementIndex::DoubleSecond),
        1
    );
    assert_eq!(
        typed_chunk.wrong_key_strokes_of_element_index(ChunkElementIndex::DoubleSecond),
        vec![ActualKeyStroke::new(
            Duration::new(7, 0),
            k('x'),
            false
        ),]
    );

    assert_eq!(typed_chunk.wrong_spell_element_positions(0), vec![0, 1]);
    assert_eq!(typed_chunk.wrong_spell_positions(0), vec![0, 1]);
}

#[test]
fn wrong_positions_of_not_double_splitted() {
    let typed_chunk = ChunkInflight::new(sp("じょ"), vec![cand(CandidateKeyStroke::Double(kss("jo")), None, None),], vec![
            cand(CandidateKeyStroke::Double(kss("zyo")), None, None),
            cand(CandidateKeyStroke::DoubleSplitted(kss("zi"), kss("lyo")), None, None),
            cand(CandidateKeyStroke::DoubleSplitted(kss("zi"), kss("xyo")), None, None),
            cand(CandidateKeyStroke::Double(kss("jyo")), None, None),
            cand(CandidateKeyStroke::DoubleSplitted(kss("ji"), kss("lyo")), None, None),
            cand(CandidateKeyStroke::DoubleSplitted(kss("ji"), kss("xyo")), None, None),
        ], cand(CandidateKeyStroke::Double(kss("jo")), None, None), vec![
            ActualKeyStroke::new(Duration::new(1, 0), k('j'), true),
            ActualKeyStroke::new(Duration::new(2, 0), k('j'), false),
            ActualKeyStroke::new(Duration::new(3, 0), k('j'), false),
            ActualKeyStroke::new(Duration::new(4, 0), k('j'), false),
            ActualKeyStroke::new(Duration::new(5, 0), k('o'), true)
        ], 2, vec![]);

    assert_eq!(
        typed_chunk.wrong_key_strokes_for_correct_key_stroke_index(0),
        vec![]
    );
    assert_eq!(
        typed_chunk.wrong_key_strokes_for_correct_key_stroke_index(1),
        vec![
            ActualKeyStroke::new(Duration::new(2, 0), k('j'), false),
            ActualKeyStroke::new(Duration::new(3, 0), k('j'), false),
            ActualKeyStroke::new(Duration::new(4, 0), k('j'), false),
        ]
    );
    assert_eq!(
        typed_chunk.wrong_key_strokes_for_correct_key_stroke_index(2),
        vec![]
    );
    assert_eq!(
        typed_chunk.wrong_key_stroke_count_of_key_stroke_index(),
        vec![0, 3]
    );

    assert_eq!(
        typed_chunk.wrong_key_stroke_count_of_ideal_key_stroke_index(&cand(CandidateKeyStroke::Double(kss("jo")), None, None)),
        vec![0, 3]
    );

    assert_eq!(typed_chunk.wrong_key_stroke_positions(0), vec![1]);

    assert_eq!(
        typed_chunk.wrong_key_stroke_count_of_element_index(ChunkElementIndex::OnlyFirst),
        3
    );
    assert_eq!(
        typed_chunk.wrong_key_strokes_of_element_index(ChunkElementIndex::OnlyFirst),
        vec![
            ActualKeyStroke::new(Duration::new(2, 0), k('j'), false),
            ActualKeyStroke::new(Duration::new(3, 0), k('j'), false),
            ActualKeyStroke::new(Duration::new(4, 0), k('j'), false),
        ]
    );
    assert_eq!(
        typed_chunk.wrong_key_stroke_count_of_element_index(ChunkElementIndex::DoubleFirst),
        0
    );
    assert_eq!(
        typed_chunk.wrong_key_strokes_of_element_index(ChunkElementIndex::DoubleFirst),
        vec![]
    );
    assert_eq!(
        typed_chunk.wrong_key_stroke_count_of_element_index(ChunkElementIndex::DoubleSecond),
        0
    );
    assert_eq!(
        typed_chunk.wrong_key_strokes_of_element_index(ChunkElementIndex::DoubleSecond),
        vec![]
    );

    assert_eq!(typed_chunk.wrong_spell_element_positions(0), vec![0]);
    assert_eq!(typed_chunk.wrong_spell_positions(0), vec![0, 1]);
}

#[test]
fn test_is_element_end_at_key_stroke_index_1() {
    let c = cand(CandidateKeyStroke::DoubleSplitted(kss("ki"), kss("xyo")), None, None);

    assert_eq!(c.is_element_end_at_key_stroke_index(0), Some(false));
    assert_eq!(c.is_element_end_at_key_stroke_index(1), Some(true));
    assert_eq!(c.is_element_end_at_key_stroke_index(2), Some(false));
    assert_eq!(c.is_element_end_at_key_stroke_index(3), Some(false));
    assert_eq!(c.is_element_end_at_key_stroke_index(4), Some(true));
    assert_eq!(c.is_element_end_at_key_stroke_index(5), None);
}

#[test]
fn test_construct_spell_end_vector_1() {
    let cc = ChunkInflight::new(sp("きょ"), vec![cand(CandidateKeyStroke::DoubleSplitted(kss("ki"), kss("xyo")), None, None)], vec![
            cand(CandidateKeyStroke::Double(kss("kyo")), None, None),
            cand(CandidateKeyStroke::DoubleSplitted(kss("ki"), kss("lyo")), None, None),
        ], cand(CandidateKeyStroke::Double(kss("kyo")), None, None), vec![
            ActualKeyStroke::new(Duration::new(1, 0), k('k'), true),
            ActualKeyStroke::new(Duration::new(2, 0), k('i'), true),
            ActualKeyStroke::new(Duration::new(3, 0), k('j'), false),
            ActualKeyStroke::new(Duration::new(4, 0), k('x'), true),
            ActualKeyStroke::new(Duration::new(5, 0), k('y'), true),
            ActualKeyStroke::new(Duration::new(6, 0), k('o'), true)
        ], 5, vec![]);

    let spell_end_vector = cc.construct_spell_end_vector();

    assert_eq!(
        spell_end_vector,
        vec![None, Some(1), None, None, None, Some(1)]
    );
}

#[test]
fn test_construct_spell_end_vector_2() {
    let cc = ChunkInflight::new(sp("きょ"), vec![cand(CandidateKeyStroke::Double(kss("kyo")), None, None)], vec![
            cand(CandidateKeyStroke::DoubleSplitted(kss("ki"), kss("lyo")), None, None),
            cand(CandidateKeyStroke::DoubleSplitted(kss("ki"), kss("xyo")), None, None)
        ], cand(CandidateKeyStroke::Double(kss("kyo")), None, None), vec![
            ActualKeyStroke::new(Duration::new(1, 0), k('k'), true),
            ActualKeyStroke::new(Duration::new(2, 0), k('j'), false),
            ActualKeyStroke::new(Duration::new(3, 0), k('y'), true),
            ActualKeyStroke::new(Duration::new(4, 0), k('o'), true)
        ], 3, vec![]);

    let spell_end_vector = cc.construct_spell_end_vector();

    assert_eq!(spell_end_vector, vec![None, None, None, Some(2)]);
}


#[test]
fn append_key_stroke_to_displayable_ascii() {
    let mut chunks = vec![ChunkCandidateUnappended::new(sp("a"))];

    let chunks = append_key_stroke_to_chunks(&mut chunks);

    assert_eq!(
        chunks[0].ideal_key_stroke_candidate(),
        &cand(CandidateKeyStroke::Normal(kss("a")), None, None)
    );
    assert_eq!(
        chunks[0].key_stroke_candidates(),
        vec![cand(CandidateKeyStroke::Normal(kss("a")), None, None)].as_slice()
    );
}

#[test]
fn append_key_stroke_to_repellent_with_single_n_availability() {
    let mut chunks = vec![
        ChunkCandidateUnappended::new(sp("ん")),
        ChunkCandidateUnappended::new(sp("じ")),
    ];

    let chunks = append_key_stroke_to_chunks(&mut chunks);

    assert_eq!(
        chunks[0].ideal_key_stroke_candidate(),
        &cand(CandidateKeyStroke::Normal(kss("n")), None, Some(vec!['z', 'j']))
    );
    assert_eq!(
        chunks[0].key_stroke_candidates(),
        vec![
            cand(CandidateKeyStroke::Normal(kss("n")), None, Some(vec!['z', 'j'])),
            cand(CandidateKeyStroke::Normal(kss("nn")), None, None),
            cand(CandidateKeyStroke::Normal(kss("xn")), None, None)
        ]
        .as_slice()
    );
}

#[test]
fn append_key_stroke_to_repellent_without_single_n_availability_due_to_last_chunk() {
    let mut chunks = vec![ChunkCandidateUnappended::new(sp("ん"))];

    let chunks = append_key_stroke_to_chunks(&mut chunks);

    assert_eq!(
        chunks[0].ideal_key_stroke_candidate(),
        &cand(CandidateKeyStroke::Normal(kss("nn")), None, None),
    );
    assert_eq!(
        chunks[0].key_stroke_candidates(),
        vec![
            cand(CandidateKeyStroke::Normal(kss("nn")), None, None),
            cand(CandidateKeyStroke::Normal(kss("xn")), None, None)
        ]
        .as_slice()
    );
}

#[test]
fn append_key_stroke_to_repellent_without_single_n_availability_due_to_ascii_of_next_chunk() {
    let mut chunks = vec![
        ChunkCandidateUnappended::new(sp("ん")),
        ChunkCandidateUnappended::new(sp("a")),
    ];

    let chunks = append_key_stroke_to_chunks(&mut chunks);

    assert_eq!(
        chunks[0].ideal_key_stroke_candidate(),
        &cand(CandidateKeyStroke::Normal(kss("nn")), None, None),
    );
    assert_eq!(
        chunks[0].key_stroke_candidates(),
        vec![
            cand(CandidateKeyStroke::Normal(kss("nn")), None, None),
            cand(CandidateKeyStroke::Normal(kss("xn")), None, None)
        ]
        .as_slice()
    );
}

#[test]
fn append_key_stroke_to_repellent_without_single_n_availability_due_to_next_chunk_head() {
    let mut chunks = vec![
        ChunkCandidateUnappended::new(sp("ん")),
        ChunkCandidateUnappended::new(sp("な")),
    ];

    let chunks = append_key_stroke_to_chunks(&mut chunks);

    assert_eq!(
        chunks[0].ideal_key_stroke_candidate(),
        &cand(CandidateKeyStroke::Normal(kss("nn")), None, None),
    );
    assert_eq!(
        chunks[0].key_stroke_candidates(),
        vec![
            cand(CandidateKeyStroke::Normal(kss("nn")), None, None),
            cand(CandidateKeyStroke::Normal(kss("xn")), None, None)
        ]
        .as_slice()
    );
}

#[test]
fn append_key_stroke_to_repellent_partial_single_n_availability_due_to_next_chunk_head() {
    let mut chunks = vec![
        ChunkCandidateUnappended::new(sp("ん")),
        ChunkCandidateUnappended::new(sp("う")),
    ];

    let chunks = append_key_stroke_to_chunks(&mut chunks);

    assert_eq!(
        chunks[0].ideal_key_stroke_candidate(),
        &cand(CandidateKeyStroke::Normal(kss("n")), Some('w'), Some(vec!['w']))
    );
    assert_eq!(
        chunks[0].key_stroke_candidates(),
        vec![
            cand(CandidateKeyStroke::Normal(kss("n")), Some('w'), Some(vec!['w'])),
            cand(CandidateKeyStroke::Normal(kss("nn")), None, None),
            cand(CandidateKeyStroke::Normal(kss("xn")), None, None)
        ]
        .as_slice()
    );
}

#[test]
fn candidate_unappended_append_key_stroke_to_chunks_1() {
    let mut chunks = vec![
        ChunkCandidateUnappended::new(sp("じょ")),
        ChunkCandidateUnappended::new(sp("ん")),
    ];

    let chunks = append_key_stroke_to_chunks(&mut chunks);

    assert_eq!(
        chunks,
        vec![
            ChunkUnprocessed::new(sp("じょ"), vec![
                    cand(CandidateKeyStroke::Double(kss("jo")), None, None),
                    cand(CandidateKeyStroke::Double(kss("zyo")), None, None),
                    cand(CandidateKeyStroke::Double(kss("jyo")), None, None),
                    cand(CandidateKeyStroke::DoubleSplitted(kss("zi"), kss("lyo")), None, None),
                    cand(CandidateKeyStroke::DoubleSplitted(kss("zi"), kss("xyo")), None, None),
                    cand(CandidateKeyStroke::DoubleSplitted(kss("ji"), kss("lyo")), None, None),
                    cand(CandidateKeyStroke::DoubleSplitted(kss("ji"), kss("xyo")), None, None),
                ], cand(CandidateKeyStroke::Double(kss("jo")), None, None)),
            ChunkUnprocessed::new(sp("ん"), vec![
                    cand(CandidateKeyStroke::Normal(kss("nn")), None, None),
                    cand(CandidateKeyStroke::Normal(kss("xn")), None, None),
                ], cand(CandidateKeyStroke::Normal(kss("nn")), None, None))
        ]
    );
}

#[test]
fn candidate_unappended_append_key_stroke_to_chunks_2() {
    let mut chunks = vec![
        ChunkCandidateUnappended::new(sp("う")),
        ChunkCandidateUnappended::new(sp("っ")),
        ChunkCandidateUnappended::new(sp("う")),
    ];

    let chunks = append_key_stroke_to_chunks(&mut chunks);

    assert_eq!(
        chunks,
        vec![
            ChunkUnprocessed::new(sp("う"), vec![
                    cand(CandidateKeyStroke::Normal(kss("u")), None, None),
                    cand(CandidateKeyStroke::Normal(kss("wu")), None, None),
                    cand(CandidateKeyStroke::Normal(kss("whu")), None, None)
                ], cand(CandidateKeyStroke::Normal(kss("u")), None, None)),
            ChunkUnprocessed::new(sp("っ"), vec![
                    cand(CandidateKeyStroke::Normal(kss("w")), Some('w'), None),
                    cand(CandidateKeyStroke::Normal(kss("ltu")), None, None),
                    cand(CandidateKeyStroke::Normal(kss("xtu")), None, None),
                    cand(CandidateKeyStroke::Normal(kss("ltsu")), None, None)
                ], cand(CandidateKeyStroke::Normal(kss("w")), Some('w'), None)),
            ChunkUnprocessed::new(sp("う"), vec![
                    cand(CandidateKeyStroke::Normal(kss("u")), None, None),
                    cand(CandidateKeyStroke::Normal(kss("wu")), None, None),
                    cand(CandidateKeyStroke::Normal(kss("whu")), None, None)
                ], cand(CandidateKeyStroke::Normal(kss("wu")), None, None)),
        ]
    );
}

#[test]
fn candidate_unappended_append_key_stroke_to_chunks_5() {
    let mut chunks = vec![
        ChunkCandidateUnappended::new(sp("っ")),
        ChunkCandidateUnappended::new(sp("っ")),
    ];

    let chunks = append_key_stroke_to_chunks(&mut chunks);

    assert_eq!(
        chunks,
        vec![
            ChunkUnprocessed::new(sp("っ"), vec![
                    cand(CandidateKeyStroke::Normal(kss("l")), Some('l'), Some(vec!['l'])),
                    cand(CandidateKeyStroke::Normal(kss("x")), Some('x'), Some(vec!['x'])),
                    cand(CandidateKeyStroke::Normal(kss("ltu")), None, None),
                    cand(CandidateKeyStroke::Normal(kss("xtu")), None, None),
                    cand(CandidateKeyStroke::Normal(kss("ltsu")), None, None),
                ], cand(CandidateKeyStroke::Normal(kss("l")), Some('l'), Some(vec!['l']))),
            ChunkUnprocessed::new(sp("っ"), vec![
                    cand(CandidateKeyStroke::Normal(kss("ltu")), None, None),
                    cand(CandidateKeyStroke::Normal(kss("xtu")), None, None),
                    cand(CandidateKeyStroke::Normal(kss("ltsu")), None, None),
                ], cand(CandidateKeyStroke::Normal(kss("ltu")), None, None)),
        ]
    );
}

#[test]
fn candidate_unappended_append_key_stroke_to_chunks_6() {
    let mut chunks = vec![
        ChunkCandidateUnappended::new(sp("っ")),
        ChunkCandidateUnappended::new(sp("か")),
    ];

    let chunks = append_key_stroke_to_chunks(&mut chunks);

    assert_eq!(
        chunks,
        vec![
            ChunkUnprocessed::new(sp("っ"), vec![
                    cand(CandidateKeyStroke::Normal(kss("k")), Some('k'), None),
                    cand(CandidateKeyStroke::Normal(kss("c")), Some('c'), None),
                    cand(CandidateKeyStroke::Normal(kss("ltu")), None, None),
                    cand(CandidateKeyStroke::Normal(kss("xtu")), None, None),
                    cand(CandidateKeyStroke::Normal(kss("ltsu")), None, None),
                ], cand(CandidateKeyStroke::Normal(kss("k")), Some('k'), None)),
            ChunkUnprocessed::new(sp("か"), vec![
                    cand(CandidateKeyStroke::Normal(kss("ka")), None, None),
                    cand(CandidateKeyStroke::Normal(kss("ca")), None, None),
                ], cand(CandidateKeyStroke::Normal(kss("ka")), None, None)),
        ]
    );
}

#[test]
fn candidate_unappended_append_key_stroke_to_chunks_7() {
    let mut chunks = vec![
        ChunkCandidateUnappended::new(sp("い")),
        ChunkCandidateUnappended::new(sp("ん")),
        ChunkCandidateUnappended::new(sp("しょ")),
        ChunkCandidateUnappended::new(sp("う")),
    ];

    let chunks = append_key_stroke_to_chunks(&mut chunks);

    assert_eq!(
        chunks,
        vec![
            ChunkUnprocessed::new(sp("い"), vec![
                    cand(CandidateKeyStroke::Normal(kss("i")), None, None),
                    cand(CandidateKeyStroke::Normal(kss("yi")), None, None),
                ], cand(CandidateKeyStroke::Normal(kss("i")), None, None)),
            ChunkUnprocessed::new(sp("ん"), vec![
                    cand(CandidateKeyStroke::Normal(kss("n")), None, Some(vec!['s', 'c'])),
                    cand(CandidateKeyStroke::Normal(kss("nn")), None, None),
                    cand(CandidateKeyStroke::Normal(kss("xn")), None, None)
                ], cand(CandidateKeyStroke::Normal(kss("n")), None, Some(vec!['s', 'c']))),
            ChunkUnprocessed::new(sp("しょ"), vec![
                    cand(CandidateKeyStroke::Double(kss("syo")), None, None),
                    cand(CandidateKeyStroke::Double(kss("sho")), None, None),
                    cand(CandidateKeyStroke::DoubleSplitted(kss("si"), kss("lyo")), None, None),
                    cand(CandidateKeyStroke::DoubleSplitted(kss("si"), kss("xyo")), None, None),
                    cand(CandidateKeyStroke::DoubleSplitted(kss("ci"), kss("lyo")), None, None),
                    cand(CandidateKeyStroke::DoubleSplitted(kss("ci"), kss("xyo")), None, None),
                    cand(CandidateKeyStroke::DoubleSplitted(kss("shi"), kss("lyo")), None, None),
                    cand(CandidateKeyStroke::DoubleSplitted(kss("shi"), kss("xyo")), None, None),
                ], cand(CandidateKeyStroke::Double(kss("syo")), None, None)),
            ChunkUnprocessed::new(sp("う"), vec![
                    cand(CandidateKeyStroke::Normal(kss("u")), None, None),
                    cand(CandidateKeyStroke::Normal(kss("wu")), None, None),
                    cand(CandidateKeyStroke::Normal(kss("whu")), None, None)
                ], cand(CandidateKeyStroke::Normal(kss("u")), None, None)),
        ]
    );
}
