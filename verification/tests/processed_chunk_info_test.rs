use typing_engine::chunk::inflight::ChunkInflight;
use typing_engine::chunk::unprocessed::ChunkUnprocessed;
use typing_engine::chunk::key_stroke_candidate::{CandidateKeyStroke, ChunkKeyStrokeCandidate, DelayedConfirmedCandidateInfo, KeyStrokeElementCount};
use typing_engine::chunk::ChunkSpell;
use typing_engine::statistics::statistical_event::{
    ChunkAddedContext, ChunkConfirmedContext, ChunkSpellCursorPosition, IdealKeyStrokeDeemedFinishedContext,
    InflightSpellSnapshottedContext, KeyStrokeCorrectContext, KeyStrokeSnapshottedContext, SpellFinishedContext,
    StatisticalEvent,
};
use typing_engine::typing_engine::processed_chunk_info::ProcessedChunkInfo;
use typing_engine::{ActualKeyStroke, Duration, KeyStrokeChar, KeyStrokeHitMiss, KeyStrokeString, SpellString};

fn sp(s: &str) -> SpellString {
    SpellString::from_str(s).unwrap()
}

fn k(c: char) -> KeyStrokeChar {
    KeyStrokeChar::new(c).unwrap()
}

fn kss(s: &str) -> KeyStrokeString {
    KeyStrokeString::from_chars(s.chars().collect()).unwrap()
}

fn cand(key_stroke: CandidateKeyStroke, constraint: Option<char>, delayed: Option<Vec<char>>) -> ChunkKeyStrokeCandidate {
    ChunkKeyStrokeCandidate::new(
        key_stroke,
        constraint.map(k),
        delayed.map(|d| DelayedConfirmedCandidateInfo::new(d.into_iter().map(k).collect())),
    )
}

#[test]
fn empty_processed_chunk_info() {
    let (pci, events) = ProcessedChunkInfo::new(vec![]);
    assert!(pci.is_finished());
    assert!(events.is_empty());
}

#[test]
fn create_processed_chunk_info_returns_chunk_added_events() {
    let (_, events) = ProcessedChunkInfo::new(vec![
        ChunkUnprocessed::new(sp("きょ"), vec![
                cand(CandidateKeyStroke::Normal(kss("kyo")), None, None),
                cand(CandidateKeyStroke::DoubleSplitted(kss("ki"), kss("lyo")), None, None),
                cand(CandidateKeyStroke::DoubleSplitted(kss("ki"), kss("xyo")), None, None),
            ], cand(CandidateKeyStroke::Normal(kss("kyo")), None, None)),
        ChunkUnprocessed::new(sp("う"), vec![
                cand(CandidateKeyStroke::Normal(kss("u")), None, None),
                cand(CandidateKeyStroke::Normal(kss("wu")), None, None),
                cand(CandidateKeyStroke::Normal(kss("whu")), None, None)
            ], cand(CandidateKeyStroke::Normal(kss("u")), None, None)),
    ]);

    assert_eq!(
        events,
        vec![
            StatisticalEvent::ChunkAdded(ChunkAddedContext::new(
                ChunkSpell::new(sp("きょ")),
                KeyStrokeElementCount::Sigle(3)
            )),
            StatisticalEvent::ChunkAdded(ChunkAddedContext::new(
                ChunkSpell::new(sp("う")),
                KeyStrokeElementCount::Sigle(1)
            )),
        ]
    );
}

#[test]
fn append_chunks_to_processed_chunk_info_returns_chunk_added_events() {
    let (mut pci, _) = ProcessedChunkInfo::new(vec![]);

    let events = pci.append_chunks(vec![
        ChunkUnprocessed::new(sp("きょ"), vec![
                cand(CandidateKeyStroke::Normal(kss("kyo")), None, None),
                cand(CandidateKeyStroke::DoubleSplitted(kss("ki"), kss("lyo")), None, None),
                cand(CandidateKeyStroke::DoubleSplitted(kss("ki"), kss("xyo")), None, None),
            ], cand(CandidateKeyStroke::Normal(kss("kyo")), None, None)),
        ChunkUnprocessed::new(sp("う"), vec![
                cand(CandidateKeyStroke::Normal(kss("u")), None, None),
                cand(CandidateKeyStroke::Normal(kss("wu")), None, None),
                cand(CandidateKeyStroke::Normal(kss("whu")), None, None)
            ], cand(CandidateKeyStroke::Normal(kss("u")), None, None)),
    ]);

    assert_eq!(
        events,
        vec![
            StatisticalEvent::ChunkAdded(ChunkAddedContext::new(
                ChunkSpell::new(sp("きょ")),
                KeyStrokeElementCount::Sigle(3)
            )),
            StatisticalEvent::ChunkAdded(ChunkAddedContext::new(
                ChunkSpell::new(sp("う")),
                KeyStrokeElementCount::Sigle(1)
            )),
        ]
    );
}

#[test]
fn append_chunks_to_finished_processed_chunk_info_become_unfinished() {
    let (mut pci, _) = ProcessedChunkInfo::new(vec![]);
    let original_pci = pci.clone();

    pci.append_chunks(vec![ChunkUnprocessed::new(sp("きょ"), vec![
            cand(CandidateKeyStroke::Normal(kss("kyo")), None, None),
            cand(CandidateKeyStroke::DoubleSplitted(kss("ki"), kss("lyo")), None, None),
            cand(CandidateKeyStroke::DoubleSplitted(kss("ki"), kss("xyo")), None, None),
        ], cand(CandidateKeyStroke::Normal(kss("kyo")), None, None))]);

    assert!(original_pci.is_finished());
    assert!(!pci.is_finished());
}

#[test]
fn wrong_stroke_to_processed_chunk_info_returns_no_event() {
    let (mut pci, _) = ProcessedChunkInfo::new(vec![ChunkUnprocessed::new(sp("きょ"), vec![
            cand(CandidateKeyStroke::Normal(kss("kyo")), None, None),
            cand(CandidateKeyStroke::DoubleSplitted(kss("ki"), kss("lyo")), None, None),
            cand(CandidateKeyStroke::DoubleSplitted(kss("ki"), kss("xyo")), None, None),
        ], cand(CandidateKeyStroke::Normal(kss("kyo")), None, None))]);

    pci.move_next_chunk();
    let (hit_miss, events) = pci.stroke_key(k('j'), Duration::new(1, 0));

    assert_eq!(hit_miss, KeyStrokeHitMiss::Wrong);
    assert_eq!(events, vec![]);
}

#[test]
fn correct_stroke_to_processed_chunk_info_returns_key_stroke_correct_event() {
    let (mut pci, _) = ProcessedChunkInfo::new(vec![ChunkUnprocessed::new(sp("きょ"), vec![
            cand(CandidateKeyStroke::Normal(kss("kyo")), None, None),
            cand(CandidateKeyStroke::DoubleSplitted(kss("ki"), kss("lyo")), None, None),
            cand(CandidateKeyStroke::DoubleSplitted(kss("ki"), kss("xyo")), None, None),
        ], cand(CandidateKeyStroke::Normal(kss("kyo")), None, None))]);

    pci.move_next_chunk();
    pci.stroke_key(k('j'), Duration::new(1, 0));
    let (hit_miss, events) = pci.stroke_key(k('k'), Duration::new(2, 0));

    assert_eq!(hit_miss, KeyStrokeHitMiss::Correct);
    assert_eq!(
        events,
        vec![StatisticalEvent::KeyStrokeCorrect(
            KeyStrokeCorrectContext::new(
                k('k'),
                Duration::from_secs(2),
                vec![k('j')]
            )
        ),]
    );
}

#[test]
fn correct_stroke_to_processed_chunk_info_returns_spell_finished_event() {
    let (mut pci, _) = ProcessedChunkInfo::new(vec![ChunkUnprocessed::new(sp("きょ"), vec![
            cand(CandidateKeyStroke::Normal(kss("kyo")), None, None),
            cand(CandidateKeyStroke::DoubleSplitted(kss("ki"), kss("lyo")), None, None),
            cand(CandidateKeyStroke::DoubleSplitted(kss("ki"), kss("xyo")), None, None),
        ], cand(CandidateKeyStroke::Normal(kss("kyo")), None, None))]);
    pci.move_next_chunk();
    pci.stroke_key(k('j'), Duration::new(1, 0));
    pci.stroke_key(k('k'), Duration::new(2, 0));

    let (hit_miss, events) = pci.stroke_key(k('i'), Duration::new(3, 0));

    assert_eq!(hit_miss, KeyStrokeHitMiss::Correct);
    assert_eq!(
        events,
        vec![
            StatisticalEvent::KeyStrokeCorrect(KeyStrokeCorrectContext::new(
                k('i'),
                Duration::from_secs(1),
                vec![]
            )),
            StatisticalEvent::SpellFinished(SpellFinishedContext::new(
                ChunkSpell::new(sp("き")),
                1
            ))
        ]
    );
}

#[test]
fn correct_stroke_to_processed_chunk_info_returns_chunk_confirmed_event() {
    let (mut pci, _) = ProcessedChunkInfo::new(vec![ChunkUnprocessed::new(sp("きょ"), vec![
            cand(CandidateKeyStroke::Normal(kss("kyo")), None, None),
            cand(CandidateKeyStroke::DoubleSplitted(kss("ki"), kss("lyo")), None, None),
            cand(CandidateKeyStroke::DoubleSplitted(kss("ki"), kss("xyo")), None, None),
        ], cand(CandidateKeyStroke::Normal(kss("kyo")), None, None))]);
    pci.move_next_chunk();
    pci.stroke_key(k('j'), Duration::new(1, 0));
    pci.stroke_key(k('k'), Duration::new(2, 0));
    pci.stroke_key(k('i'), Duration::new(3, 0));
    pci.stroke_key(k('j'), Duration::new(4, 0));
    pci.stroke_key(k('j'), Duration::new(5, 0));
    pci.stroke_key(k('x'), Duration::new(6, 0));
    pci.stroke_key(k('y'), Duration::new(7, 0));

    let (hit_miss, events) = pci.stroke_key(k('o'), Duration::new(8, 0));

    assert_eq!(hit_miss, KeyStrokeHitMiss::Correct);
    assert_eq!(
        events,
        vec![
            StatisticalEvent::KeyStrokeCorrect(KeyStrokeCorrectContext::new(
                k('o'),
                Duration::from_secs(1),
                vec![]
            )),
            StatisticalEvent::SpellFinished(SpellFinishedContext::new(
                ChunkSpell::new(sp("ょ")),
                2
            )),
            StatisticalEvent::ChunkConfirmed(ChunkConfirmedContext::new(3, vec![1, 0, 2, 0, 0]))
        ]
    );
}

#[test]
fn correct_stroke_to_processed_chunk_info_with_delayed_confirmable_inflight_chunk_confirms_delayed_confirmed_candidate(
) {
    let (mut pci, _) = ProcessedChunkInfo::new(vec![
        ChunkUnprocessed::new(sp("か"), vec![
                cand(CandidateKeyStroke::Normal(kss("ka")), None, None),
                cand(CandidateKeyStroke::Normal(kss("ca")), None, None),
            ], cand(CandidateKeyStroke::Normal(kss("ka")), None, None)),
        ChunkUnprocessed::new(sp("ん"), vec![
                cand(CandidateKeyStroke::Normal(kss("n")), None, Some(vec!['k'])),
                cand(CandidateKeyStroke::Normal(kss("nn")), None, None),
                cand(CandidateKeyStroke::Normal(kss("xn")), None, None)
            ], cand(CandidateKeyStroke::Normal(kss("n")), None, Some(vec!['k']))),
        ChunkUnprocessed::new(sp("き"), vec![cand(CandidateKeyStroke::Normal(kss("ki")), None, None),], cand(CandidateKeyStroke::Normal(kss("ki")), None, None)),
    ]);
    pci.move_next_chunk();
    pci.stroke_key(k('k'), Duration::new(1, 0));
    pci.stroke_key(k('a'), Duration::new(2, 0));
    pci.stroke_key(k('n'), Duration::new(3, 0));
    pci.stroke_key(k('j'), Duration::new(4, 0)); // wrong

    let (hit_miss, events) = pci.stroke_key(k('k'), Duration::new(5, 0));

    assert_eq!(hit_miss, KeyStrokeHitMiss::Correct);
    assert_eq!(
        events,
        vec![
            StatisticalEvent::SpellFinished(SpellFinishedContext::new(
                ChunkSpell::new(sp("ん")),
                0
            )),
            StatisticalEvent::ChunkConfirmed(ChunkConfirmedContext::new(1, vec![0])),
            StatisticalEvent::KeyStrokeCorrect(KeyStrokeCorrectContext::new(
                k('k'),
                Duration::from_secs(2),
                vec![k('j')]
            ))
        ]
    );
}

#[test]
fn correct_stroke_to_processed_chunk_info_with_delayed_confirmable_inflight_chunk_confirms_not_delayed_confirmed_candidate(
) {
    let (mut pci, _) = ProcessedChunkInfo::new(vec![
        ChunkUnprocessed::new(sp("か"), vec![
                cand(CandidateKeyStroke::Normal(kss("ka")), None, None),
                cand(CandidateKeyStroke::Normal(kss("ca")), None, None),
            ], cand(CandidateKeyStroke::Normal(kss("ka")), None, None)),
        ChunkUnprocessed::new(sp("ん"), vec![
                cand(CandidateKeyStroke::Normal(kss("n")), None, Some(vec!['k'])),
                cand(CandidateKeyStroke::Normal(kss("nn")), None, None),
                cand(CandidateKeyStroke::Normal(kss("xn")), None, None)
            ], cand(CandidateKeyStroke::Normal(kss("n")), None, Some(vec!['k']))),
        ChunkUnprocessed::new(sp("き"), vec![cand(CandidateKeyStroke::Normal(kss("ki")), None, None),], cand(CandidateKeyStroke::Normal(kss("ki")), None, None)),
    ]);
    pci.move_next_chunk();
    pci.stroke_key(k('k'), Duration::new(1, 0));
    pci.stroke_key(k('a'), Duration::new(2, 0));
    pci.stroke_key(k('n'), Duration::new(3, 0));
    pci.stroke_key(k('j'), Duration::new(4, 0)); // wrong

    let (hit_miss, events) = pci.stroke_key(k('n'), Duration::new(5, 0));

    assert_eq!(hit_miss, KeyStrokeHitMiss::Correct);
    assert_eq!(
        events,
        vec![
            StatisticalEvent::KeyStrokeCorrect(KeyStrokeCorrectContext::new(
                k('n'),
                Duration::from_secs(2),
                vec![k('j')]
            )),
            StatisticalEvent::SpellFinished(SpellFinishedContext::new(
                ChunkSpell::new(sp("ん")),
                1
            )),
            StatisticalEvent::ChunkConfirmed(ChunkConfirmedContext::new(1, vec![0, 1])),
        ]
    );
}

#[test]
fn correct_stroke_to_processed_chunk_info_with_delayed_confirmable_inflight_chunk_confirms_delayed_confirmed_candidate_and_next_chunk(
) {
    let (mut pci, _) = ProcessedChunkInfo::new(vec![
        ChunkUnprocessed::new(sp("ん"), vec![
                cand(CandidateKeyStroke::Normal(kss("n")), None, Some(vec!['p'])),
                cand(CandidateKeyStroke::Normal(kss("nn")), None, None),
                cand(CandidateKeyStroke::Normal(kss("xn")), None, None)
            ], cand(CandidateKeyStroke::Normal(kss("n")), None, Some(vec!['p']))),
        ChunkUnprocessed::new(sp("ぴ"), vec![cand(CandidateKeyStroke::Normal(kss("p")), None, None),], cand(CandidateKeyStroke::Normal(kss("p")), None, None)),
    ]);
    pci.move_next_chunk();
    pci.stroke_key(k('n'), Duration::new(1, 0));

    let (hit_miss, events) = pci.stroke_key(k('p'), Duration::new(2, 0));

    assert_eq!(hit_miss, KeyStrokeHitMiss::Correct);
    assert_eq!(
        events,
        vec![
            StatisticalEvent::SpellFinished(SpellFinishedContext::new(
                ChunkSpell::new(sp("ん")),
                0
            )),
            StatisticalEvent::ChunkConfirmed(ChunkConfirmedContext::new(1, vec![0])),
            StatisticalEvent::KeyStrokeCorrect(KeyStrokeCorrectContext::new(
                k('p'),
                Duration::from_secs(1),
                vec![]
            )),
            StatisticalEvent::SpellFinished(SpellFinishedContext::new(
                ChunkSpell::new(sp("ぴ")),
                0
            )),
            StatisticalEvent::ChunkConfirmed(ChunkConfirmedContext::new(1, vec![0])),
        ]
    );
}

#[test]
fn candidate_restriction_during_stroke_to_processed_chunk_info() {
    let (mut pci, _) = ProcessedChunkInfo::new(vec![
        ChunkUnprocessed::new(sp("う"), vec![
                cand(CandidateKeyStroke::Normal(kss("u")), None, None),
                cand(CandidateKeyStroke::Normal(kss("wu")), None, None),
                cand(CandidateKeyStroke::Normal(kss("whu")), None, None)
            ], cand(CandidateKeyStroke::Normal(kss("u")), None, None)),
        ChunkUnprocessed::new(sp("っ"), vec![
                cand(CandidateKeyStroke::Normal(kss("w")), Some('w'), None),
                cand(CandidateKeyStroke::Normal(kss("ltu")), None, None),
                cand(CandidateKeyStroke::Normal(kss("xtu")), None, None),
                cand(CandidateKeyStroke::Normal(kss("ltsu")), None, None)
            ], cand(CandidateKeyStroke::Normal(kss("w")), Some('w'), None)),
        ChunkUnprocessed::new(sp("う"), vec![
                cand(CandidateKeyStroke::Normal(kss("u")), None, None),
                cand(CandidateKeyStroke::Normal(kss("wu")), None, None),
                cand(CandidateKeyStroke::Normal(kss("whu")), None, None)
            ], cand(CandidateKeyStroke::Normal(kss("wu")), None, None)),
    ]);
    pci.move_next_chunk();
    pci.stroke_key(k('u'), Duration::new(1, 0));
    pci.stroke_key(k('w'), Duration::new(2, 0));

    let (hit_miss, events) = pci.stroke_key(k('u'), Duration::new(3, 0));

    assert_eq!(hit_miss, KeyStrokeHitMiss::Wrong);
    assert_eq!(events, vec![]);
}

#[test]
fn after_last_chunk_confirmation_processed_chunk_info_is_finished() {
    let (mut pci, _) = ProcessedChunkInfo::new(vec![
        ChunkUnprocessed::new(sp("か"), vec![
                cand(CandidateKeyStroke::Normal(kss("ka")), None, None),
                cand(CandidateKeyStroke::Normal(kss("ca")), None, None),
            ], cand(CandidateKeyStroke::Normal(kss("ka")), None, None)),
        ChunkUnprocessed::new(sp("ん"), vec![
                cand(CandidateKeyStroke::Normal(kss("n")), None, Some(vec!['k'])),
                cand(CandidateKeyStroke::Normal(kss("nn")), None, None),
                cand(CandidateKeyStroke::Normal(kss("xn")), None, None)
            ], cand(CandidateKeyStroke::Normal(kss("n")), None, Some(vec!['k']))),
        ChunkUnprocessed::new(sp("き"), vec![cand(CandidateKeyStroke::Normal(kss("ki")), None, None),], cand(CandidateKeyStroke::Normal(kss("ki")), None, None)),
    ]);

    pci.move_next_chunk();
    pci.stroke_key(k('k'), Duration::new(1, 0));
    pci.stroke_key(k('a'), Duration::new(2, 0));
    pci.stroke_key(k('n'), Duration::new(3, 0));
    pci.stroke_key(k('k'), Duration::new(4, 0));
    pci.stroke_key(k('i'), Duration::new(5, 0));

    assert!(pci.is_finished());
}

#[test]
fn snapshot_processed_chunk_info_with_unprocessed_chunk() {
    let (pci, _) = ProcessedChunkInfo::new(vec![ChunkUnprocessed::new(sp("きょ"), vec![
            cand(CandidateKeyStroke::Normal(kss("kyo")), None, None),
            cand(CandidateKeyStroke::DoubleSplitted(kss("ki"), kss("lyo")), None, None),
            cand(CandidateKeyStroke::DoubleSplitted(kss("ki"), kss("xyo")), None, None),
        ], cand(CandidateKeyStroke::Normal(kss("kyo")), None, None))]);

    let events = pci.snapshot();

    assert_eq!(
        events,
        vec![
            StatisticalEvent::KeyStrokeSnapshotted(KeyStrokeSnapshottedContext::new_unstarted(
                &k('k')
            )),
            StatisticalEvent::KeyStrokeSnapshotted(KeyStrokeSnapshottedContext::new_unstarted(
                &k('y')
            )),
            StatisticalEvent::KeyStrokeSnapshotted(KeyStrokeSnapshottedContext::new_unstarted(
                &k('o')
            )),
        ]
    );
}

#[test]
fn snapshot_processed_chunk_info_with_inflight_chunk_with_double_splitted() {
    let pci = ProcessedChunkInfo::from_parts(vec![], Some(ChunkInflight::new(sp("きょ"), vec![cand(CandidateKeyStroke::DoubleSplitted(kss("ki"), kss("xyo")), None, None),], vec![
                cand(CandidateKeyStroke::Double(kss("kyo")), None, None),
                cand(CandidateKeyStroke::DoubleSplitted(kss("ki"), kss("lyo")), None, None),
            ], cand(CandidateKeyStroke::Double(kss("kyo")), None, None), vec![
                ActualKeyStroke::new(Duration::new(1, 0), k('k'), true),
                ActualKeyStroke::new(Duration::new(2, 0), k('i'), true),
                ActualKeyStroke::new(Duration::new(3, 0), k('x'), true)
            ], 3, vec![])), vec![], Duration::from_secs(3));

    let events = pci.snapshot();

    assert_eq!(
        events,
        vec![
            StatisticalEvent::IdealKeyStrokeDeemedFinished(
                IdealKeyStrokeDeemedFinishedContext::new(0)
            ),
            StatisticalEvent::IdealKeyStrokeDeemedFinished(
                IdealKeyStrokeDeemedFinishedContext::new(0)
            ),
            StatisticalEvent::KeyStrokeSnapshotted(KeyStrokeSnapshottedContext::new_started(
                &k('y'),
                vec![]
            )),
            StatisticalEvent::KeyStrokeSnapshotted(KeyStrokeSnapshottedContext::new_unstarted(
                &k('o')
            )),
            StatisticalEvent::InflightSpellSnapshotted(InflightSpellSnapshottedContext::new(
                ChunkSpell::new(sp("ょ")),
                ChunkSpellCursorPosition::DoubleSecond,
                vec![]
            )),
        ]
    );
}

#[test]
fn snapshot_processed_chunk_info_with_inflight_chunk_without_wrong_key_stroke() {
    let pci = ProcessedChunkInfo::from_parts(vec![], Some(ChunkInflight::new(sp("きょ"), vec![
                cand(CandidateKeyStroke::Double(kss("kyo")), None, None),
                cand(CandidateKeyStroke::DoubleSplitted(kss("ki"), kss("lyo")), None, None),
                cand(CandidateKeyStroke::DoubleSplitted(kss("ki"), kss("xyo")), None, None),
            ], vec![], cand(CandidateKeyStroke::Double(kss("kyo")), None, None), vec![ActualKeyStroke::new(
                Duration::new(1, 0),
                k('k'),
                true
            )], 1, vec![])), vec![], Duration::from_secs(1));

    let events = pci.snapshot();

    assert_eq!(
        events,
        vec![
            StatisticalEvent::IdealKeyStrokeDeemedFinished(
                IdealKeyStrokeDeemedFinishedContext::new(0)
            ),
            StatisticalEvent::KeyStrokeSnapshotted(KeyStrokeSnapshottedContext::new_started(
                &k('y'),
                vec![]
            )),
            StatisticalEvent::KeyStrokeSnapshotted(KeyStrokeSnapshottedContext::new_unstarted(
                &k('o')
            )),
            StatisticalEvent::InflightSpellSnapshotted(InflightSpellSnapshottedContext::new(
                ChunkSpell::new(sp("きょ")),
                ChunkSpellCursorPosition::DoubleCombined,
                vec![]
            )),
        ]
    );
}

#[test]
fn snapshot_processed_chunk_info_with_inflight_chunk_with_wrong_key_stroke() {
    let pci = ProcessedChunkInfo::from_parts(vec![], Some(ChunkInflight::new(sp("きょ"), vec![
                cand(CandidateKeyStroke::Double(kss("kyo")), None, None),
                cand(CandidateKeyStroke::DoubleSplitted(kss("ki"), kss("lyo")), None, None),
                cand(CandidateKeyStroke::DoubleSplitted(kss("ki"), kss("xyo")), None, None),
            ], vec![], cand(CandidateKeyStroke::Double(kss("kyo")), None, None), vec![
                ActualKeyStroke::new(Duration::new(1, 0), k('h'), false),
                ActualKeyStroke::new(Duration::new(2, 0), k('k'), true),
                ActualKeyStroke::new(Duration::new(3, 0), k('t'), false),
                ActualKeyStroke::new(Duration::new(4, 0), k('u'), false)
            ], 1, vec![])), vec![], Duration::from_secs(4));

    let events = pci.snapshot();

    assert_eq!(
        events,
        vec![
            StatisticalEvent::IdealKeyStrokeDeemedFinished(
                IdealKeyStrokeDeemedFinishedContext::new(1)
            ),
            StatisticalEvent::KeyStrokeSnapshotted(KeyStrokeSnapshottedContext::new_started(
                &k('y'),
                vec![k('t'), k('u')]
            )),
            StatisticalEvent::KeyStrokeSnapshotted(KeyStrokeSnapshottedContext::new_unstarted(
                &k('o')
            )),
            StatisticalEvent::InflightSpellSnapshotted(InflightSpellSnapshottedContext::new(
                ChunkSpell::new(sp("きょ")),
                ChunkSpellCursorPosition::DoubleCombined,
                vec![
                    k('h'),
                    k('t'),
                    k('u')
                ]
            )),
        ]
    );
}

#[test]
fn snapshot_processed_chunk_info_with_inflight_chunk_with_delayed_confirmable_candidate() {
    let pci = ProcessedChunkInfo::from_parts(vec![ChunkUnprocessed::new(sp("じ"), vec![
                cand(CandidateKeyStroke::Normal(kss("zi")), None, None),
                cand(CandidateKeyStroke::Normal(kss("ji")), None, None),
            ], cand(CandidateKeyStroke::Normal(kss("zi")), None, None))]
        , Some(ChunkInflight::new(sp("ん"), vec![
                cand(CandidateKeyStroke::Normal(kss("n")), None, Some(vec!['z', 'j'])),
                cand(CandidateKeyStroke::Normal(kss("nn")), None, None),
            ], vec![cand(CandidateKeyStroke::Normal(kss("xn")), None, None)], cand(CandidateKeyStroke::Normal(kss("n")), None, Some(vec!['z', 'j'])), vec![ActualKeyStroke::new(
                Duration::new(1, 0),
                k('n'),
                true
            )], 1, vec![ActualKeyStroke::new(
                Duration::new(2, 0),
                k('m'),
                false
            )])), vec![], Duration::from_secs(2));

    let events = pci.snapshot();

    assert_eq!(
        events,
        vec![
            StatisticalEvent::IdealKeyStrokeDeemedFinished(
                IdealKeyStrokeDeemedFinishedContext::new(0)
            ),
            StatisticalEvent::SpellDeemedFinished(SpellFinishedContext::new(
                ChunkSpell::new(sp("ん")),
                0
            )),
            StatisticalEvent::KeyStrokeSnapshotted(KeyStrokeSnapshottedContext::new_started(
                &k('z'),
                vec![k('m')]
            )),
            StatisticalEvent::InflightSpellSnapshotted(InflightSpellSnapshottedContext::new(
                ChunkSpell::new(sp("じ")),
                ChunkSpellCursorPosition::Single,
                vec![k('m')]
            )),
            StatisticalEvent::KeyStrokeSnapshotted(KeyStrokeSnapshottedContext::new_unstarted(
                &k('i'),
            )),
        ]
    );
}
