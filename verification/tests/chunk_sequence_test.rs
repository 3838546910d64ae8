use typing_engine::chunk::candidate_unappended::{append_key_stroke_to_chunks, ChunkCandidateUnappended};
use typing_engine::chunk::key_stroke_candidate::{CandidateKeyStroke, ChunkKeyStrokeCandidate, DelayedConfirmedCandidateInfo};
use typing_engine::chunk::confirmed::ChunkConfirmed;
use typing_engine::chunk::unprocessed::ChunkUnprocessed;
use typing_engine::chunk::ChunkSpell;
use typing_engine::{ActualKeyStroke, Duration, KeyStrokeChar, KeyStrokeString, NonZeroUsize, SpellString};

fn sp(s: &str) -> SpellString {
    SpellString::from_str(s).unwrap()
}

fn k(c: char) -> KeyStrokeChar {
    KeyStrokeChar::new(c).unwrap()
}

fn kss(s: &str) -> KeyStrokeString {
    KeyStrokeString::from_chars(s.chars().collect()).unwrap()
}

fn cand(key_stroke: CandidateKeyStroke, constraint: Option<char>, delayed: Option<Vec<char>>) -> ChunkKeyStrokeCandidate {
    ChunkKeyStrokeCandidate::new(
        key_stroke,
        constraint.map(k),
        delayed.map(|d| DelayedConfirmedCandidateInfo::new(d.into_iter().map(k).collect())),
    )
}

#[test]
fn chunk_append_key_stroke_to_chunks_1() {
    let chunks = vec![ChunkCandidateUnappended::new(sp("じょ")), ChunkCandidateUnappended::new(sp("ん"))];

    let chunks = append_key_stroke_to_chunks(&chunks);

    assert_eq!(
        chunks,
        vec![
            ChunkUnprocessed::new(sp("じょ"), vec![
                    cand(CandidateKeyStroke::Double(kss("jo")), None, None),
                    cand(CandidateKeyStroke::Double(kss("zyo")), None, None),
                    cand(CandidateKeyStroke::Double(kss("jyo")), None, None),
                    cand(CandidateKeyStroke::DoubleSplitted(kss("zi"), kss("lyo")), None, None),
                    cand(CandidateKeyStroke::DoubleSplitted(kss("zi"), kss("xyo")), None, None),
                    cand(CandidateKeyStroke::DoubleSplitted(kss("ji"), kss("lyo")), None, None),
                    cand(CandidateKeyStroke::DoubleSplitted(kss("ji"), kss("xyo")), None, None),
                ], cand(CandidateKeyStroke::Double(kss("jo")), None, None)),
            ChunkUnprocessed::new(sp("ん"), vec![cand(CandidateKeyStroke::Normal(kss("nn")), None, None), cand(CandidateKeyStroke::Normal(kss("xn")), None, None)], cand(CandidateKeyStroke::Normal(kss("nn")), None, None))
        ]
    );
}

#[test]
fn chunk_append_key_stroke_to_chunks_2() {
    let chunks = vec![
        ChunkCandidateUnappended::new(sp("う")),
        ChunkCandidateUnappended::new(sp("っ")),
        ChunkCandidateUnappended::new(sp("う")),
    ];

    let chunks = append_key_stroke_to_chunks(&chunks);

    assert_eq!(
        chunks,
        vec![
            ChunkUnprocessed::new(sp("う"), vec![
                    cand(CandidateKeyStroke::Normal(kss("u")), None, None),
                    cand(CandidateKeyStroke::Normal(kss("wu")), None, None),
                    cand(CandidateKeyStroke::Normal(kss("whu")), None, None)
                ], cand(CandidateKeyStroke::Normal(kss("u")), None, None)),
            ChunkUnprocessed::new(sp("っ"), vec![
                    cand(CandidateKeyStroke::Normal(kss("w")), Some('w'), None),
                    cand(CandidateKeyStroke::Normal(kss("ltu")), None, None),
                    cand(CandidateKeyStroke::Normal(kss("xtu")), None, None),
                    cand(CandidateKeyStroke::Normal(kss("ltsu")), None, None)
                ], cand(CandidateKeyStroke::Normal(kss("w")), Some('w'), None)),
            ChunkUnprocessed::new(sp("う"), vec![
                    cand(CandidateKeyStroke::Normal(kss("u")), None, None),
                    cand(CandidateKeyStroke::Normal(kss("wu")), None, None),
                    cand(CandidateKeyStroke::Normal(kss("whu")), None, None)
                ], cand(CandidateKeyStroke::Normal(kss("wu")), None, None)),
        ]
    );
}

#[test]
fn append_key_stroke_to_chunks_3() {
    let chunks = vec![
        ChunkCandidateUnappended::new(sp("か")),
        ChunkCandidateUnappended::new(sp("ん")),
        ChunkCandidateUnappended::new(sp("じ")),
    ];

    let chunks = append_key_stroke_to_chunks(&chunks);

    assert_eq!(
        chunks,
        vec![
            ChunkUnprocessed::new(sp("か"), vec![cand(CandidateKeyStroke::Normal(kss("ka")), None, None), cand(CandidateKeyStroke::Normal(kss("ca")), None, None)], cand(CandidateKeyStroke::Normal(kss("ka")), None, None)),
            ChunkUnprocessed::new(sp("ん"), vec![
                    cand(CandidateKeyStroke::Normal(kss("n")), None, Some(vec!['z', 'j'])),
                    cand(CandidateKeyStroke::Normal(kss("nn")), None, None),
                    cand(CandidateKeyStroke::Normal(kss("xn")), None, None)
                ], cand(CandidateKeyStroke::Normal(kss("n")), None, Some(vec!['z', 'j']))),
            ChunkUnprocessed::new(sp("じ"), vec![cand(CandidateKeyStroke::Normal(kss("zi")), None, None), cand(CandidateKeyStroke::Normal(kss("ji")), None, None)], cand(CandidateKeyStroke::Normal(kss("zi")), None, None)),
        ]
    );
}

#[test]
fn append_key_stroke_to_chunks_4() {
    let chunks = vec![
        ChunkCandidateUnappended::new(sp("B")),
        ChunkCandidateUnappended::new(sp("i")),
        ChunkCandidateUnappended::new(sp("g")),
    ];

    let chunks = append_key_stroke_to_chunks(&chunks);

    assert_eq!(
        chunks,
        vec![
            ChunkUnprocessed::new(sp("B"), vec![cand(CandidateKeyStroke::Normal(kss("B")), None, None)], cand(CandidateKeyStroke::Normal(kss("B")), None, None)),
            ChunkUnprocessed::new(sp("i"), vec![cand(CandidateKeyStroke::Normal(kss("i")), None, None)], cand(CandidateKeyStroke::Normal(kss("i")), None, None)),
            ChunkUnprocessed::new(sp("g"), vec![cand(CandidateKeyStroke::Normal(kss("g")), None, None)], cand(CandidateKeyStroke::Normal(kss("g")), None, None)),
        ]
    );
}

#[test]
fn chunk_append_key_stroke_to_chunks_5() {
    let chunks = vec![ChunkCandidateUnappended::new(sp("っ")), ChunkCandidateUnappended::new(sp("っ"))];

    let chunks = append_key_stroke_to_chunks(&chunks);

    assert_eq!(
        chunks,
        vec![
            ChunkUnprocessed::new(sp("っ"), vec![
                    cand(CandidateKeyStroke::Normal(kss("l")), Some('l'), Some(vec!['l'])),
                    cand(CandidateKeyStroke::Normal(kss("x")), Some('x'), Some(vec!['x'])),
                    cand(CandidateKeyStroke::Normal(kss("ltu")), None, None),
                    cand(CandidateKeyStroke::Normal(kss("xtu")), None, None),
                    cand(CandidateKeyStroke::Normal(kss("ltsu")), None, None),
                ], cand(CandidateKeyStroke::Normal(kss("l")), Some('l'), Some(vec!['l']))),
            ChunkUnprocessed::new(sp("っ"), vec![
                    cand(CandidateKeyStroke::Normal(kss("ltu")), None, None),
                    cand(CandidateKeyStroke::Normal(kss("xtu")), None, None),
                    cand(CandidateKeyStroke::Normal(kss("ltsu")), None, None),
                ], cand(CandidateKeyStroke::Normal(kss("ltu")), None, None)),
        ]
    );
}

#[test]
fn chunk_append_key_stroke_to_chunks_6() {
    let chunks = vec![ChunkCandidateUnappended::new(sp("っ")), ChunkCandidateUnappended::new(sp("か"))];

    let chunks = append_key_stroke_to_chunks(&chunks);

    assert_eq!(
        chunks,
        vec![
            ChunkUnprocessed::new(sp("っ"), vec![
                    cand(CandidateKeyStroke::Normal(kss("k")), Some('k'), None),
                    cand(CandidateKeyStroke::Normal(kss("c")), Some('c'), None),
                    cand(CandidateKeyStroke::Normal(kss("ltu")), None, None),
                    cand(CandidateKeyStroke::Normal(kss("xtu")), None, None),
                    cand(CandidateKeyStroke::Normal(kss("ltsu")), None, None),
                ], cand(CandidateKeyStroke::Normal(kss("k")), Some('k'), None)),
            ChunkUnprocessed::new(sp("か"), vec![cand(CandidateKeyStroke::Normal(kss("ka")), None, None), cand(CandidateKeyStroke::Normal(kss("ca")), None, None),], cand(CandidateKeyStroke::Normal(kss("ka")), None, None)),
        ]
    );
}

#[test]
fn chunk_append_key_stroke_to_chunks_7() {
    let chunks = vec![
        ChunkCandidateUnappended::new(sp("い")),
        ChunkCandidateUnappended::new(sp("ん")),
        ChunkCandidateUnappended::new(sp("しょ")),
        ChunkCandidateUnappended::new(sp("う")),
    ];

    let chunks = append_key_stroke_to_chunks(&chunks);

    assert_eq!(
        chunks,
        vec![
            ChunkUnprocessed::new(sp("い"), vec![cand(CandidateKeyStroke::Normal(kss("i")), None, None), cand(CandidateKeyStroke::Normal(kss("yi")), None, None),], cand(CandidateKeyStroke::Normal(kss("i")), None, None)),
            ChunkUnprocessed::new(sp("ん"), vec![
                    cand(CandidateKeyStroke::Normal(kss("n")), None, Some(vec!['s', 'c'])),
                    cand(CandidateKeyStroke::Normal(kss("nn")), None, None),
                    cand(CandidateKeyStroke::Normal(kss("xn")), None, None)
                ], cand(CandidateKeyStroke::Normal(kss("n")), None, Some(vec!['s', 'c']))),
            ChunkUnprocessed::new(sp("しょ"), vec![
                    cand(CandidateKeyStroke::Double(kss("syo")), None, None),
                    cand(CandidateKeyStroke::Double(kss("sho")), None, None),
                    cand(CandidateKeyStroke::DoubleSplitted(kss("si"), kss("lyo")), None, None),
                    cand(CandidateKeyStroke::DoubleSplitted(kss("si"), kss("xyo")), None, None),
                    cand(CandidateKeyStroke::DoubleSplitted(kss("ci"), kss("lyo")), None, None),
                    cand(CandidateKeyStroke::DoubleSplitted(kss("ci"), kss("xyo")), None, None),
                    cand(CandidateKeyStroke::DoubleSplitted(kss("shi"), kss("lyo")), None, None),
                    cand(CandidateKeyStroke::DoubleSplitted(kss("shi"), kss("xyo")), None, None),
                ], cand(CandidateKeyStroke::Double(kss("syo")), None, None)),
            ChunkUnprocessed::new(sp("う"), vec![
                    cand(CandidateKeyStroke::Normal(kss("u")), None, None),
                    cand(CandidateKeyStroke::Normal(kss("wu")), None, None),
                    cand(CandidateKeyStroke::Normal(kss("whu")), None, None)
                ], cand(CandidateKeyStroke::Normal(kss("u")), None, None)),
        ]
    );
}

#[test]
fn chunk_strict_key_stroke_count_1() {
    let mut chunk = ChunkUnprocessed::new(sp("じょ"), vec![
            cand(CandidateKeyStroke::Double(kss("jo")), None, None),
            cand(CandidateKeyStroke::Double(kss("zyo")), None, None),
            cand(CandidateKeyStroke::Double(kss("jyo")), None, None),
            cand(CandidateKeyStroke::DoubleSplitted(kss("zi"), kss("lyo")), None, None),
            cand(CandidateKeyStroke::DoubleSplitted(kss("zi"), kss("xyo")), None, None),
            cand(CandidateKeyStroke::DoubleSplitted(kss("ji"), kss("lyo")), None, None),
            cand(CandidateKeyStroke::DoubleSplitted(kss("ji"), kss("xyo")), None, None),
        ], cand(CandidateKeyStroke::Double(kss("jo")), None, None));

    chunk.strict_key_stroke_count(NonZeroUsize::new(1).unwrap());

    assert_eq!(
        chunk,
        ChunkUnprocessed::new(sp("じょ"), vec![cand(CandidateKeyStroke::Double(kss("j")), None, None), cand(CandidateKeyStroke::Double(kss("z")), None, None),], cand(CandidateKeyStroke::Double(kss("j")), None, None))
    )
}

#[test]
fn chunk_strict_key_stroke_count_2() {
    let mut chunk = ChunkUnprocessed::new(sp("ん"), vec![
            cand(CandidateKeyStroke::Normal(kss("n")), None, Some(vec!['j', 'z'])),
            cand(CandidateKeyStroke::Normal(kss("nn")), None, None),
            cand(CandidateKeyStroke::Normal(kss("xn")), None, None),
        ], cand(CandidateKeyStroke::Normal(kss("n")), None, Some(vec!['j', 'z'])));

    chunk.strict_key_stroke_count(NonZeroUsize::new(1).unwrap());

    assert_eq!(
        chunk,
        ChunkUnprocessed::new(sp("ん"), vec![cand(CandidateKeyStroke::Normal(kss("n")), None, None), cand(CandidateKeyStroke::Normal(kss("x")), None, None)], cand(CandidateKeyStroke::Normal(kss("n")), None, None))
    )
}

#[test]
fn chunk_is_element_end_at_key_stroke_index_1() {
    let c = cand(CandidateKeyStroke::DoubleSplitted(kss("ki"), kss("xyo")), None, None);

    assert_eq!(c.is_element_end_at_key_stroke_index(0), Some(false));
    assert_eq!(c.is_element_end_at_key_stroke_index(1), Some(true));
    assert_eq!(c.is_element_end_at_key_stroke_index(2), Some(false));
    assert_eq!(c.is_element_end_at_key_stroke_index(3), Some(false));
    assert_eq!(c.is_element_end_at_key_stroke_index(4), Some(true));
}

#[test]
fn confirmed_construct_spell_end_vector_1() {
    let cc = ChunkConfirmed::new(
        ChunkSpell::new(sp("きょ")),
        cand(CandidateKeyStroke::DoubleSplitted(kss("ki"), kss("xyo")), None, None),
        vec![],
        cand(CandidateKeyStroke::Double(kss("kyo")), None, None),
        vec![
            ActualKeyStroke::new(Duration::new(1, 0), k('k'), true),
            ActualKeyStroke::new(Duration::new(2, 0), k('i'), true),
            ActualKeyStroke::new(Duration::new(3, 0), k('j'), false),
            ActualKeyStroke::new(Duration::new(4, 0), k('x'), true),
            ActualKeyStroke::new(Duration::new(5, 0), k('y'), true),
            ActualKeyStroke::new(Duration::new(6, 0), k('o'), true),
        ],
    );

    let spell_end_vector = cc.construct_spell_end_vector();

    assert_eq!(spell_end_vector, vec![None, Some(1), None, None, None, Some(1)]);
}

#[test]
fn confirmed_construct_spell_end_vector_2() {
    let cc = ChunkConfirmed::new(
        ChunkSpell::new(sp("きょ")),
        cand(CandidateKeyStroke::Double(kss("kyo")), None, None),
        vec![],
        cand(CandidateKeyStroke::Double(kss("kyo")), None, None),
        vec![
            ActualKeyStroke::new(Duration::new(1, 0), k('k'), true),
            ActualKeyStroke::new(Duration::new(2, 0), k('j'), false),
            ActualKeyStroke::new(Duration::new(3, 0), k('y'), true),
            ActualKeyStroke::new(Duration::new(4, 0), k('o'), true),
        ],
    );

    let spell_end_vector = cc.construct_spell_end_vector();

    assert_eq!(spell_end_vector, vec![None, None, None, Some(2)]);
}
