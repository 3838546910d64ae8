use typing_engine::chunk::key_stroke_candidate::{CandidateKeyStroke, ChunkKeyStrokeCandidate, DelayedConfirmedCandidateInfo};
use typing_engine::chunk::unprocessed::ChunkUnprocessed;
use typing_engine::query::Query;
use typing_engine::vocabulary::{ViewPosition, VocabularyInfo};
use typing_engine::{
    KeyStrokeChar, KeyStrokeString, NonZeroUsize, QueryRequest, SpellString, VocabularyEntry, VocabularyOrder,
    VocabularyQuantifier, VocabularySeparator, VocabularySpellElement,
};

fn sp(s: &str) -> SpellString {
    SpellString::from_str(s).unwrap()
}

fn k(c: char) -> KeyStrokeChar {
    KeyStrokeChar::new(c).unwrap()
}

fn kss(s: &str) -> KeyStrokeString {
    KeyStrokeString::from_chars(s.chars().collect()).unwrap()
}

fn cand(key_stroke: CandidateKeyStroke, constraint: Option<char>, delayed: Option<Vec<char>>) -> ChunkKeyStrokeCandidate {
    ChunkKeyStrokeCandidate::new(
        key_stroke,
        constraint.map(k),
        delayed.map(|d| DelayedConfirmedCandidateInfo::new(d.into_iter().map(k).collect())),
    )
}

fn ve(view: &str, spells: &[(&str, usize)]) -> VocabularyEntry {
    VocabularyEntry::new(
        String::from(view),
        spells
            .iter()
            .map(|(s, n)| {
                if *n == 0 {
                    VocabularySpellElement::Normal(sp(s))
                } else {
                    VocabularySpellElement::Compound((sp(s), NonZeroUsize::new(*n).unwrap()))
                }
            })
            .collect(),
    )
    .unwrap()
}

#[test]
fn construct_query_1() {
    let vocabularies = vec![ve("イオン", &[("い", 0), ("お", 0), ("ん", 0)])];

    let qr = QueryRequest::new(
        vocabularies
            .iter()
            .map(|ve| ve)
            .collect::<Vec<&VocabularyEntry>>()
            .as_slice(),
        VocabularyQuantifier::KeyStroke(NonZeroUsize::new(5).unwrap()),
        VocabularySeparator::WhiteSpace,
        VocabularyOrder::InOrder,
    );

    let query = qr.construct_query().unwrap();

    assert_eq!(
        query,
        Query::new(
            vec![
                VocabularyInfo::new(String::from("イオン"), sp("いおん"), vec![
                        ViewPosition::Normal(0),
                        ViewPosition::Normal(1),
                        ViewPosition::Normal(2)
                    ], NonZeroUsize::new(3).unwrap()),
                VocabularyInfo::new(String::from(" "), sp(" "), vec![ViewPosition::Normal(0)], NonZeroUsize::new(1).unwrap())
            ],
            vec![
                ChunkUnprocessed::new(sp("い"), vec![
                        cand(CandidateKeyStroke::Normal(kss("i")), None, None),
                        cand(CandidateKeyStroke::Normal(kss("yi")), None, None)
                    ], cand(CandidateKeyStroke::Normal(kss("i")), None, None)),
                ChunkUnprocessed::new(sp("お"), vec![cand(CandidateKeyStroke::Normal(kss("o")), None, None)], cand(CandidateKeyStroke::Normal(kss("o")), None, None)),
                ChunkUnprocessed::new(sp("ん"), vec![
                        cand(CandidateKeyStroke::Normal(kss("nn")), None, None),
                        cand(CandidateKeyStroke::Normal(kss("xn")), None, None)
                    ], cand(CandidateKeyStroke::Normal(kss("nn")), None, None)),
                ChunkUnprocessed::new(sp(" "), vec![cand(CandidateKeyStroke::Normal(kss(" ")), None, None)], cand(CandidateKeyStroke::Normal(kss(" ")), None, None)),
            ]
        )
    );
}

#[test]
fn construct_query_2() {
    let vocabularies = vec![ve("イオン", &[("い", 0), ("お", 0), ("ん", 0)])];

    let qr = QueryRequest::new(
        vocabularies
            .iter()
            .map(|ve| ve)
            .collect::<Vec<&VocabularyEntry>>()
            .as_slice(),
        VocabularyQuantifier::KeyStroke(NonZeroUsize::new(5).unwrap()),
        VocabularySeparator::Nothing,
        VocabularyOrder::InOrder,
    );

    let query = qr.construct_query().unwrap();

    assert_eq!(
        query,
        Query::new(
            vec![
                VocabularyInfo::new(String::from("イオン"), sp("いおん"), vec![
                        ViewPosition::Normal(0),
                        ViewPosition::Normal(1),
                        ViewPosition::Normal(2)
                    ], NonZeroUsize::new(3).unwrap()),
                VocabularyInfo::new(String::from("イオン"), sp("いおん"), vec![
                        ViewPosition::Normal(0),
                        ViewPosition::Normal(1),
                        ViewPosition::Normal(2)
                    ], NonZeroUsize::new(1).unwrap())
            ],
            vec![
                ChunkUnprocessed::new(sp("い"), vec![
                        cand(CandidateKeyStroke::Normal(kss("i")), None, None),
                        cand(CandidateKeyStroke::Normal(kss("yi")), None, None)
                    ], cand(CandidateKeyStroke::Normal(kss("i")), None, None)),
                ChunkUnprocessed::new(sp("お"), vec![cand(CandidateKeyStroke::Normal(kss("o")), None, None)], cand(CandidateKeyStroke::Normal(kss("o")), None, None)),
                ChunkUnprocessed::new(sp("ん"), vec![
                        cand(CandidateKeyStroke::Normal(kss("nn")), None, None),
                        cand(CandidateKeyStroke::Normal(kss("xn")), None, None)
                    ], cand(CandidateKeyStroke::Normal(kss("nn")), None, None)),
                ChunkUnprocessed::new(sp("い"), vec![
                        cand(CandidateKeyStroke::Normal(kss("i")), None, None),
                        cand(CandidateKeyStroke::Normal(kss("y")), None, None)
                    ], cand(CandidateKeyStroke::Normal(kss("i")), None, None)),
            ]
        )
    );
}

#[test]
fn construct_query_3() {
    let vocabularies = vec![
        ve("イオン", &[("い", 0), ("お", 0), ("ん", 0)]),
        ve("買っ", &[("か", 0), ("っ", 0)]),
        ve("た", &[("た", 0)]),
    ];

    let qr = QueryRequest::new(
        vocabularies
            .iter()
            .map(|ve| ve)
            .collect::<Vec<&VocabularyEntry>>()
            .as_slice(),
        VocabularyQuantifier::KeyStroke(NonZeroUsize::new(10).unwrap()),
        VocabularySeparator::Nothing,
        VocabularyOrder::InOrder,
    );

    let query = qr.construct_query().unwrap();

    assert_eq!(
        query,
        Query::new(
            vec![
                VocabularyInfo::new(String::from("イオン"), sp("いおん"), vec![
                        ViewPosition::Normal(0),
                        ViewPosition::Normal(1),
                        ViewPosition::Normal(2)
                    ], NonZeroUsize::new(3).unwrap()),
                VocabularyInfo::new(String::from("買っ"), sp("かっ"), vec![ViewPosition::Normal(0), ViewPosition::Normal(1)], NonZeroUsize::new(2).unwrap()),
                VocabularyInfo::new(String::from("た"), sp("た"), vec![ViewPosition::Normal(0)], NonZeroUsize::new(1).unwrap()),
                VocabularyInfo::new(String::from("イオン"), sp("いおん"), vec![
                        ViewPosition::Normal(0),
                        ViewPosition::Normal(1),
                        ViewPosition::Normal(2)
                    ], NonZeroUsize::new(2).unwrap()),
            ],
            vec![
                ChunkUnprocessed::new(sp("い"), vec![
                        cand(CandidateKeyStroke::Normal(kss("i")), None, None),
                        cand(CandidateKeyStroke::Normal(kss("yi")), None, None)
                    ], cand(CandidateKeyStroke::Normal(kss("i")), None, None)),
                ChunkUnprocessed::new(sp("お"), vec![cand(CandidateKeyStroke::Normal(kss("o")), None, None)], cand(CandidateKeyStroke::Normal(kss("o")), None, None)),
                ChunkUnprocessed::new(sp("ん"), vec![
                        cand(CandidateKeyStroke::Normal(kss("n")), None, Some(vec!['k', 'c'])),
                        cand(CandidateKeyStroke::Normal(kss("nn")), None, None),
                        cand(CandidateKeyStroke::Normal(kss("xn")), None, None)
                    ], cand(CandidateKeyStroke::Normal(kss("n")), None, Some(vec!['k', 'c']))),
                ChunkUnprocessed::new(sp("か"), vec![
                        cand(CandidateKeyStroke::Normal(kss("ka")), None, None),
                        cand(CandidateKeyStroke::Normal(kss("ca")), None, None)
                    ], cand(CandidateKeyStroke::Normal(kss("ka")), None, None)),
                ChunkUnprocessed::new(sp("っ"), vec![
                        cand(CandidateKeyStroke::Normal(kss("t")), Some('t'), None),
                        cand(CandidateKeyStroke::Normal(kss("ltu")), None, None),
                        cand(CandidateKeyStroke::Normal(kss("xtu")), None, None),
                        cand(CandidateKeyStroke::Normal(kss("ltsu")), None, None),
                    ], cand(CandidateKeyStroke::Normal(kss("t")), Some('t'), None)),
                ChunkUnprocessed::new(sp("た"), vec![cand(CandidateKeyStroke::Normal(kss("ta")), None, None)], cand(CandidateKeyStroke::Normal(kss("ta")), None, None)),
                ChunkUnprocessed::new(sp("い"), vec![
                        cand(CandidateKeyStroke::Normal(kss("i")), None, None),
                        cand(CandidateKeyStroke::Normal(kss("yi")), None, None)
                    ], cand(CandidateKeyStroke::Normal(kss("i")), None, None)),
                ChunkUnprocessed::new(sp("お"), vec![cand(CandidateKeyStroke::Normal(kss("o")), None, None)], cand(CandidateKeyStroke::Normal(kss("o")), None, None)),
            ]
        )
    );
}

#[test]
fn construct_query_5() {
    let vocabularies = vec![ve("イオン", &[("い", 0), ("お", 0), ("ん", 0)])];

    let qr = QueryRequest::new(
        vocabularies
            .iter()
            .map(|ve| ve)
            .collect::<Vec<&VocabularyEntry>>()
            .as_slice(),
        VocabularyQuantifier::Vocabulary(NonZeroUsize::new(2).unwrap()),
        VocabularySeparator::WhiteSpace,
        VocabularyOrder::InOrder,
    );

    let query = qr.construct_query().unwrap();

    assert_eq!(
        query,
        Query::new(
            vec![
                VocabularyInfo::new(String::from("イオン"), sp("いおん"), vec![
                        ViewPosition::Normal(0),
                        ViewPosition::Normal(1),
                        ViewPosition::Normal(2)
                    ], NonZeroUsize::new(3).unwrap()),
                VocabularyInfo::new(String::from(" "), sp(" "), vec![ViewPosition::Normal(0)], NonZeroUsize::new(1).unwrap())
            ],
            vec![
                ChunkUnprocessed::new(sp("い"), vec![
                        cand(CandidateKeyStroke::Normal(kss("i")), None, None),
                        cand(CandidateKeyStroke::Normal(kss("yi")), None, None)
                    ], cand(CandidateKeyStroke::Normal(kss("i")), None, None)),
                ChunkUnprocessed::new(sp("お"), vec![cand(CandidateKeyStroke::Normal(kss("o")), None, None)], cand(CandidateKeyStroke::Normal(kss("o")), None, None)),
                ChunkUnprocessed::new(sp("ん"), vec![
                        cand(CandidateKeyStroke::Normal(kss("nn")), None, None),
                        cand(CandidateKeyStroke::Normal(kss("xn")), None, None)
                    ], cand(CandidateKeyStroke::Normal(kss("nn")), None, None)),
                ChunkUnprocessed::new(sp(" "), vec![cand(CandidateKeyStroke::Normal(kss(" ")), None, None)], cand(CandidateKeyStroke::Normal(kss(" ")), None, None)),
            ]
        )
    );
}

#[test]
fn construct_query_6() {
    let vocabularies = vec![ve("印字", &[("いん", 0), ("じ", 0)])];

    let qr = QueryRequest::new(
        vocabularies
            .iter()
            .map(|ve| ve)
            .collect::<Vec<&VocabularyEntry>>()
            .as_slice(),
        VocabularyQuantifier::KeyStroke(NonZeroUsize::new(3).unwrap()),
        VocabularySeparator::WhiteSpace,
        VocabularyOrder::InOrder,
    );

    let query = qr.construct_query().unwrap();

    assert_eq!(
        query,
        Query::new(
            vec![VocabularyInfo::new(String::from("印字"), sp("いんじ"), vec![
                    ViewPosition::Normal(0),
                    ViewPosition::Normal(0),
                    ViewPosition::Normal(1)
                ], NonZeroUsize::new(3).unwrap()),],
            vec![
                ChunkUnprocessed::new(sp("い"), vec![
                        cand(CandidateKeyStroke::Normal(kss("i")), None, None),
                        cand(CandidateKeyStroke::Normal(kss("yi")), None, None)
                    ], cand(CandidateKeyStroke::Normal(kss("i")), None, None)),
                ChunkUnprocessed::new(sp("ん"), vec![
                        cand(CandidateKeyStroke::Normal(kss("n")), None, Some(vec!['z', 'j'])),
                        cand(CandidateKeyStroke::Normal(kss("nn")), None, None),
                        cand(CandidateKeyStroke::Normal(kss("xn")), None, None)
                    ], cand(CandidateKeyStroke::Normal(kss("n")), None, Some(vec!['z', 'j']))),
                ChunkUnprocessed::new(sp("じ"), vec![
                        cand(CandidateKeyStroke::Normal(kss("z")), None, None),
                        cand(CandidateKeyStroke::Normal(kss("j")), None, None)
                    ], cand(CandidateKeyStroke::Normal(kss("z")), None, None)),
            ]
        )
    );
}

#[test]
fn construct_query_7() {
    let vocabularies = vec![ve("印字", &[("いん", 0), ("じ", 0)])];

    let qr = QueryRequest::new(
        vocabularies
            .iter()
            .map(|ve| ve)
            .collect::<Vec<&VocabularyEntry>>()
            .as_slice(),
        VocabularyQuantifier::KeyStroke(NonZeroUsize::new(2).unwrap()),
        VocabularySeparator::WhiteSpace,
        VocabularyOrder::InOrder,
    );

    let query = qr.construct_query().unwrap();

    assert_eq!(
        query,
        Query::new(
            vec![VocabularyInfo::new(String::from("印字"), sp("いんじ"), vec![
                    ViewPosition::Normal(0),
                    ViewPosition::Normal(0),
                    ViewPosition::Normal(1)
                ], NonZeroUsize::new(2).unwrap()),],
            vec![
                ChunkUnprocessed::new(sp("い"), vec![
                        cand(CandidateKeyStroke::Normal(kss("i")), None, None),
                        cand(CandidateKeyStroke::Normal(kss("yi")), None, None)
                    ], cand(CandidateKeyStroke::Normal(kss("i")), None, None)),
                ChunkUnprocessed::new(sp("ん"), vec![
                        cand(CandidateKeyStroke::Normal(kss("n")), None, None),
                        cand(CandidateKeyStroke::Normal(kss("x")), None, None)
                    ], cand(CandidateKeyStroke::Normal(kss("n")), None, None)),
            ]
        )
    );
}
