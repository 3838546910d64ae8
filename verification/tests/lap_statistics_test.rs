use typing_engine::chunk::key_stroke_candidate::KeyStrokeElementCount;
use typing_engine::statistics::lap_statistics::{
    LapInfo, LapStatiticsBuilder, SingleFinishedLapInfo, SingleUnfinishedLapInfo,
};
use typing_engine::{Duration, LapRequest, NonZeroUsize};

#[test]
fn only_requested_entity_has_lap_end_when_chunk_is_requested() {
    let lap_statistics =
        LapStatiticsBuilder::new(LapRequest::Chunk(NonZeroUsize::new(5).unwrap()));

    let (ks, iks, s, c) = lap_statistics.emit();

    assert_eq!(ks.lap_end_time(), None);
    assert_eq!(iks.lap_end_time(), None);
    assert_eq!(s.lap_end_time(), None);
    assert_eq!(c.lap_end_time(), Some(&vec![]));
}

#[test]
fn only_requested_entity_has_lap_end_when_spell_is_requested() {
    let lap_statistics =
        LapStatiticsBuilder::new(LapRequest::Spell(NonZeroUsize::new(5).unwrap()));

    let (ks, iks, s, c) = lap_statistics.emit();

    assert_eq!(ks.lap_end_time(), None);
    assert_eq!(iks.lap_end_time(), None);
    assert_eq!(s.lap_end_time(), Some(&vec![]));
    assert_eq!(c.lap_end_time(), None);
}

#[test]
fn only_requested_entity_has_lap_end_when_ideal_key_stroke_is_requested() {
    let lap_statistics =
        LapStatiticsBuilder::new(LapRequest::IdealKeyStroke(NonZeroUsize::new(5).unwrap()));

    let (ks, iks, s, c) = lap_statistics.emit();

    assert_eq!(ks.lap_end_time(), None);
    assert_eq!(iks.lap_end_time(), Some(&vec![]));
    assert_eq!(s.lap_end_time(), None);
    assert_eq!(c.lap_end_time(), None);
}

#[test]
fn only_requested_entity_has_lap_end_when_key_stroke_is_requested() {
    let lap_statistics =
        LapStatiticsBuilder::new(LapRequest::KeyStroke(NonZeroUsize::new(5).unwrap()));

    let (ks, iks, s, c) = lap_statistics.emit();

    assert_eq!(ks.lap_end_time(), Some(&vec![]));
    assert_eq!(iks.lap_end_time(), None);
    assert_eq!(s.lap_end_time(), None);
    assert_eq!(c.lap_end_time(), None);
}

#[test]
fn lap_end_is_converted_correctly_when_chunk_is_requested() {
    let mut lap_statistics =
        LapStatiticsBuilder::new(LapRequest::Chunk(NonZeroUsize::new(2).unwrap()));

    lap_statistics.on_add_chunk(
        KeyStrokeElementCount::new(&[2, 3]),
        KeyStrokeElementCount::new(&[3]),
        2,
    );
    lap_statistics.on_add_chunk(
        KeyStrokeElementCount::new(&[2]),
        KeyStrokeElementCount::new(&[2]),
        1,
    );
    lap_statistics.on_add_chunk(
        KeyStrokeElementCount::new(&[2, 3]),
        KeyStrokeElementCount::new(&[3]),
        2,
    );
    lap_statistics.on_add_chunk(
        KeyStrokeElementCount::new(&[2, 3]),
        KeyStrokeElementCount::new(&[3]),
        2,
    );

    let (ks, iks, s, c) = lap_statistics.emit();

    assert_eq!(ks.lap_end_positions(), &vec![6, 16]);
    assert_eq!(iks.lap_end_positions(), &vec![4, 10]);
    assert_eq!(s.lap_end_positions(), &vec![2, 6]);
    assert_eq!(c.lap_end_positions(), &vec![1, 3]);
}

#[test]
fn lap_end_is_converted_correctly_when_spell_is_requested() {
    let mut lap_statistics =
        LapStatiticsBuilder::new(LapRequest::Spell(NonZeroUsize::new(2).unwrap()));

    lap_statistics.on_add_chunk(
        KeyStrokeElementCount::new(&[2, 3]),
        KeyStrokeElementCount::new(&[3]),
        2,
    );
    lap_statistics.on_add_chunk(
        KeyStrokeElementCount::new(&[2]),
        KeyStrokeElementCount::new(&[2]),
        1,
    );
    lap_statistics.on_add_chunk(
        KeyStrokeElementCount::new(&[2, 3]),
        KeyStrokeElementCount::new(&[3]),
        2,
    );
    lap_statistics.on_add_chunk(
        KeyStrokeElementCount::new(&[2, 3]),
        KeyStrokeElementCount::new(&[3]),
        2,
    );

    let (ks, iks, s, c) = lap_statistics.emit();

    assert_eq!(ks.lap_end_positions(), &vec![4, 8, 13]);
    assert_eq!(iks.lap_end_positions(), &vec![2, 5, 8]);
    assert_eq!(s.lap_end_positions(), &vec![1, 3, 5]);
    assert_eq!(c.lap_end_positions(), &vec![0, 2, 3]);
}

#[test]
fn lap_end_is_converted_correctly_when_ideal_key_stroke_is_requested() {
    let mut lap_statistics =
        LapStatiticsBuilder::new(LapRequest::IdealKeyStroke(NonZeroUsize::new(3).unwrap()));

    lap_statistics.on_add_chunk(
        KeyStrokeElementCount::new(&[2, 3]),
        KeyStrokeElementCount::new(&[3]),
        2,
    );
    lap_statistics.on_add_chunk(
        KeyStrokeElementCount::new(&[2]),
        KeyStrokeElementCount::new(&[2]),
        1,
    );
    lap_statistics.on_add_chunk(
        KeyStrokeElementCount::new(&[2, 3]),
        KeyStrokeElementCount::new(&[3]),
        2,
    );
    lap_statistics.on_add_chunk(
        KeyStrokeElementCount::new(&[2, 3]),
        KeyStrokeElementCount::new(&[3]),
        2,
    );

    let (ks, iks, s, c) = lap_statistics.emit();

    assert_eq!(ks.lap_end_positions(), &vec![4, 8, 13]);
    assert_eq!(iks.lap_end_positions(), &vec![2, 5, 8]);
    assert_eq!(s.lap_end_positions(), &vec![1, 3, 5]);
    assert_eq!(c.lap_end_positions(), &vec![0, 2, 3]);
}

#[test]
fn lap_end_is_converted_correctly_when_key_stroke_is_requested() {
    let mut lap_statistics =
        LapStatiticsBuilder::new(LapRequest::KeyStroke(NonZeroUsize::new(5).unwrap()));

    lap_statistics.on_add_chunk(
        KeyStrokeElementCount::new(&[2, 3]),
        KeyStrokeElementCount::new(&[3]),
        2,
    );
    lap_statistics.on_add_chunk(
        KeyStrokeElementCount::new(&[2]),
        KeyStrokeElementCount::new(&[2]),
        1,
    );
    lap_statistics.on_add_chunk(
        KeyStrokeElementCount::new(&[2, 3]),
        KeyStrokeElementCount::new(&[3]),
        2,
    );
    lap_statistics.on_add_chunk(
        KeyStrokeElementCount::new(&[2, 3]),
        KeyStrokeElementCount::new(&[3]),
        2,
    );

    let (ks, iks, s, c) = lap_statistics.emit();

    assert_eq!(ks.lap_end_positions(), &vec![4, 9, 14]);
    assert_eq!(iks.lap_end_positions(), &vec![2, 6, 9]);
    assert_eq!(s.lap_end_positions(), &vec![1, 4, 6]);
    assert_eq!(c.lap_end_positions(), &vec![0, 2, 3]);
}

fn tested_lap_info() -> LapInfo {
    LapInfo::new(
        vec![
            SingleFinishedLapInfo::new(Duration::from_secs(1), 0, 0, 0, 0, 0),
            SingleFinishedLapInfo::new(Duration::from_secs(3), 1, 2, 3, 4, 5),
            SingleFinishedLapInfo::new(Duration::from_secs(4), 2, 4, 6, 8, 10),
        ],
        vec![SingleUnfinishedLapInfo::new(3, 6, 9, 12, 15)],
    )
}

#[test]
fn lap_info_construct_lap_end_correctly() {
    let lap_info = tested_lap_info();

    assert_eq!(lap_info.key_stroke_lap_end_positions(), vec![0, 1, 2, 3]);
    assert_eq!(
        lap_info.ideal_key_stroke_lap_end_positions(),
        vec![0, 2, 4, 6]
    );
    assert_eq!(lap_info.spell_lap_end_positions(), vec![0, 3, 6, 9]);
    assert_eq!(lap_info.chunk_lap_end_positions(), vec![0, 4, 8, 12]);
    assert_eq!(lap_info.view_lap_end_positions(), vec![0, 5, 10, 15]);
}

#[test]
fn lap_info_construct_elapsed_time_correctly() {
    let lap_info = tested_lap_info();

    assert_eq!(
        lap_info.elapsed_times(),
        vec![
            Duration::from_secs(1),
            Duration::from_secs(3),
            Duration::from_secs(4),
        ]
    );
}

#[test]
fn lap_info_construct_lap_time_correctly() {
    let lap_info = tested_lap_info();

    assert_eq!(
        lap_info.lap_times(),
        vec![
            Duration::from_secs(1),
            Duration::from_secs(2),
            Duration::from_secs(1),
        ]
    );
}
