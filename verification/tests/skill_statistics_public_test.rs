use typing_engine::{Duration, EntitySkillStatistics, KeyStrokeChar, SkillStatistics};

fn k(c: char) -> KeyStrokeChar {
    KeyStrokeChar::new(c).unwrap()
}

#[test]
fn add_entity_skill_statistics_with_same_entity() {
    let ss1 = EntitySkillStatistics::new_with(
        k('a'),
        2,
        Duration::from_secs(2),
        vec![(k('b'), 1), (k('c'), 3)],
        1,
    );

    let ss2 = EntitySkillStatistics::new_with(
        k('a'),
        3,
        Duration::from_secs(3),
        vec![(k('a'), 1), (k('b'), 1)],
        2,
    );

    let added = ss1.combined(ss2);

    assert_eq!(added.entity(), &k('a'));
    assert_eq!(added.count(), 5);
    assert_eq!(added.completely_correct_count(), 3);
    assert_eq!(
        added.wrong_count_ranking(),
        vec![
            (k('c'), 3),
            (k('b'), 2),
            (k('a'), 1),
        ]
    );
}

#[test]
fn add_entity_skill_statistics_with_different_entity() {
    let ss1 = EntitySkillStatistics::new_with(
        k('a'),
        2,
        Duration::from_secs(2),
        vec![(k('b'), 1), (k('c'), 3)],
        1,
    );

    let ss2 = EntitySkillStatistics::new_with(
        k('b'),
        3,
        Duration::from_secs(3),
        vec![(k('a'), 1), (k('b'), 1)],
        2,
    );

    let added = ss1.combined(ss2);

    assert_eq!(added.entity(), &k('a'));
    assert_eq!(added.count(), 5);
    assert_eq!(added.completely_correct_count(), 3);
    assert_eq!(
        added.wrong_count_ranking(),
        vec![
            (k('c'), 3),
            (k('b'), 2),
            (k('a'), 1),
        ]
    );
}

#[test]
fn skill_statistics_averate_time_is_calculated_correctly() {
    let ss = EntitySkillStatistics::new_with(
        k('a'),
        4,
        Duration::from_secs(5),
        vec![],
        1,
    );

    assert_eq!(ss.average_time(), Duration::new(1, 250_000_000));
}

#[test]
fn skill_statistics_wrong_count_ranking_is_constructed_correctly() {
    let ss = EntitySkillStatistics::new_with(
        k('a'),
        4,
        Duration::from_secs(4),
        vec![
            (k('a'), 2),
            (k('b'), 1),
            (k('c'), 3),
            (k('!'), 100),],
        1,
    );

    assert_eq!(
        ss.wrong_count_ranking(),
        vec![
            (k('!'), 100),
            (k('c'), 3),
            (k('a'), 2),
            (k('b'), 1),
        ]
    );
}

#[test]
fn add_skill_statistics() {
    let ss1 = SkillStatistics::new_with(vec![
        EntitySkillStatistics::new_with(
            k('a'),
            2,
            Duration::from_secs(2),
            vec![],
            1,
        ),
        EntitySkillStatistics::new_with(
            k('b'),
            3,
            Duration::from_secs(3),
            vec![],
            2,
        ),
    ]);
    let ss2 = SkillStatistics::new_with(vec![
        EntitySkillStatistics::new_with(
            k('c'),
            5,
            Duration::from_secs(5),
            vec![],
            4,
        ),
        EntitySkillStatistics::new_with(
            k('a'),
            4,
            Duration::from_secs(4),
            vec![],
            3,
        ),
    ]);

    let added = ss1.combined(ss2);

    let expected = SkillStatistics::new_with(vec![
        EntitySkillStatistics::new_with(
            k('a'),
            6,
            Duration::from_secs(6),
            vec![],
            4,
        ),
        EntitySkillStatistics::new_with(
            k('b'),
            3,
            Duration::from_secs(3),
            vec![],
            2,
        ),
        EntitySkillStatistics::new_with(
            k('c'),
            5,
            Duration::from_secs(5),
            vec![],
            4,
        ),
    ]);

    assert_eq!(added, expected);
}
